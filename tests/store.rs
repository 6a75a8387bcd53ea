use vault::db::{deserialize, serialize, Db, DbEntry, DbEntryField, DynFieldKind};
use vault::error::VaultError;

fn field(slot_id: usize, kind: DynFieldKind, value: &str) -> DbEntryField {
    DbEntryField { slot_id, kind, value: value.to_string() }
}

fn sample() -> Db {
    let mut db = Db::empty();
    db.add_entry(DbEntry {
        id: 0,
        title: "mail".to_string(),
        fields: vec![field(1, DynFieldKind::SecretLine, "bob"), field(3, DynFieldKind::Url, "https://x.io")],
    });
    db.add_entry(DbEntry {
        id: 7,
        title: "bank: ünïcode;".to_string(),
        fields: vec![field(4, DynFieldKind::MultiLine, "line1\nline2:3;"), field(0, DynFieldKind::TextLine, "")],
    });
    db
}

fn assert_same(a: &Db, b: &Db) {
    assert_eq!(a.contents.len(), b.contents.len());
    for (x, y) in a.contents.iter().zip(b.contents.iter()) {
        assert_eq!(x.id, y.id);
        assert_eq!(x.title, y.title);
        assert_eq!(x.fields.len(), y.fields.len());
        for (f, g) in x.fields.iter().zip(y.fields.iter()) {
            assert_eq!(f.slot_id, g.slot_id);
            assert_eq!(f.kind, g.kind);
            assert_eq!(f.value, g.value);
        }
    }
}

#[test]
fn store_round_trip_keeps_entries_and_order() {
    let db = sample();
    let text = serialize(&db);
    let back = deserialize(&text).unwrap();
    assert_same(&db, &back);
    assert_eq!(serialize(&back), text);
}

#[test]
fn store_text_exact() {
    let mut db = Db::empty();
    db.add_entry(DbEntry { id: 12, title: "ab".to_string(), fields: vec![field(2, DynFieldKind::SecretLine, "pw")] });
    assert_eq!(serialize(&db), "1;12;2:ab1;2;s2:pw");
}

#[test]
fn empty_store_text() {
    assert_eq!(serialize(&Db::empty()), "0;");
    assert_eq!(deserialize("0;").unwrap().contents.len(), 0);
}

#[test]
fn malformed_store_rejected() {
    for bad in ["", "garbage", "1;", "0;x", "1;0;5:ab0;", "1;0;2:ab1;2;q2:pw", "99999999999999999999999;"] {
        assert_eq!(deserialize(bad).unwrap_err(), VaultError::MalformedStore, "{bad}");
    }
}

#[test]
fn entry_crud() {
    let mut db = sample();
    let e = DbEntry { id: 9, title: "new".to_string(), fields: vec![] };
    assert!(db.update_entry(1, e.clone()));
    assert_eq!(db.contents[1].title, "new");
    assert!(!db.update_entry(5, e));
    let removed = db.remove_entry(0).unwrap();
    assert_eq!(removed.title, "mail");
    assert_eq!(db.contents.len(), 1);
    assert!(db.remove_entry(3).is_none());
}
