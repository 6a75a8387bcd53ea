//! The secrets store: entries of typed fields, and their text encoding.

use vstd::prelude::*;
use crate::error::VaultError;
use crate::text::{chars_of, enc_nat, enc_str, parse_nat, parse_str, read_nat, read_str, write_nat, write_str, push_char, lemma_parse_nat, lemma_parse_str};

verus! {

/// How the value of a field is entered and shown.
#[derive(PartialEq, Eq, Structural, Clone, Copy, Debug)]
pub enum DynFieldKind {
    TextLine,
    SecretLine,
    Url,
    MultiLine,
}

/// One value of an entry, in the column named by `slot_id`.
#[derive(Clone, Debug)]
pub struct DbEntryField {
    pub slot_id: usize,
    pub kind: DynFieldKind,
    pub value: String,
}

/// One record of the vault.
#[derive(Clone, Debug)]
pub struct DbEntry {
    pub id: usize,
    pub title: String,
    pub fields: Vec<DbEntryField>,
}

/// The ordered collection of entries of an open vault.
#[derive(Clone, Debug)]
pub struct Db {
    pub contents: Vec<DbEntry>,
}

pub struct FieldModel {
    pub slot_id: nat,
    pub kind: DynFieldKind,
    pub value: Seq<char>,
}

pub struct EntryModel {
    pub id: nat,
    pub title: Seq<char>,
    pub fields: Seq<FieldModel>,
}

impl View for DbEntryField {
    type V = FieldModel;

    open spec fn view(&self) -> FieldModel {
        FieldModel { slot_id: self.slot_id as nat, kind: self.kind, value: self.value@ }
    }
}

pub open spec fn fields_model(v: Seq<DbEntryField>) -> Seq<FieldModel> {
    v.map_values(|f: DbEntryField| f@)
}

impl View for DbEntry {
    type V = EntryModel;

    open spec fn view(&self) -> EntryModel {
        EntryModel { id: self.id as nat, title: self.title@, fields: fields_model(self.fields@) }
    }
}

pub open spec fn entries_model(v: Seq<DbEntry>) -> Seq<EntryModel> {
    v.map_values(|e: DbEntry| e@)
}

impl View for Db {
    type V = Seq<EntryModel>;

    open spec fn view(&self) -> Seq<EntryModel> {
        entries_model(self.contents@)
    }
}

impl Db {
    /// Appends an entry at the end.
    pub fn add_entry(&mut self, e: DbEntry)
        ensures
            final(self)@ == old(self)@.push(e@),
    {
        self.contents.push(e);
        assert(final(self)@ =~= old(self)@.push(e@));
    }

    /// Replaces the entry at `index`; `false` and no change where there is none.
    pub fn update_entry(&mut self, index: usize, e: DbEntry) -> (r: bool)
        ensures
            r == (index < old(self)@.len()),
            r ==> final(self)@ == old(self)@.update(index as int, e@),
            !r ==> final(self)@ == old(self)@,
    {
        if index < self.contents.len() {
            self.contents.set(index, e);
            assert(final(self)@ =~= old(self)@.update(index as int, e@));
            true
        } else {
            false
        }
    }

    /// Removes the entry at `index` and hands it back; `None` and no change where there is none.
    pub fn remove_entry(&mut self, index: usize) -> (r: Option<DbEntry>)
        ensures
            index < old(self)@.len() ==> (r matches Some(e) && e@ == old(self)@[index as int]
                && final(self)@ == old(self)@.remove(index as int)),
            index >= old(self)@.len() ==> r is None && final(self)@ == old(self)@,
    {
        if index < self.contents.len() {
            let e = self.contents.remove(index);
            assert(final(self)@ =~= old(self)@.remove(index as int));
            Some(e)
        } else {
            None
        }
    }

    /// An empty store.
    pub fn empty() -> (r: Db)
        ensures
            r@ == Seq::<EntryModel>::empty(),
    {
        let r = Db { contents: Vec::new() };
        assert(r@ =~= Seq::<EntryModel>::empty());
        r
    }
}

pub open spec fn kind_char(k: DynFieldKind) -> char {
    match k {
        DynFieldKind::TextLine => 't',
        DynFieldKind::SecretLine => 's',
        DynFieldKind::Url => 'u',
        DynFieldKind::MultiLine => 'm',
    }
}

pub open spec fn kind_of(c: char) -> Option<DynFieldKind> {
    if c == 't' {
        Some(DynFieldKind::TextLine)
    } else if c == 's' {
        Some(DynFieldKind::SecretLine)
    } else if c == 'u' {
        Some(DynFieldKind::Url)
    } else if c == 'm' {
        Some(DynFieldKind::MultiLine)
    } else {
        None
    }
}

pub open spec fn enc_field(f: FieldModel) -> Seq<char> {
    enc_nat(f.slot_id) + seq![kind_char(f.kind)] + enc_str(f.value)
}

pub open spec fn enc_fields(fs: Seq<FieldModel>) -> Seq<char>
    decreases fs.len(),
{
    if fs.len() == 0 {
        Seq::empty()
    } else {
        enc_fields(fs.drop_last()) + enc_field(fs.last())
    }
}

pub open spec fn enc_entry(e: EntryModel) -> Seq<char> {
    enc_nat(e.id) + enc_str(e.title) + enc_nat(e.fields.len()) + enc_fields(e.fields)
}

pub open spec fn enc_entries(es: Seq<EntryModel>) -> Seq<char>
    decreases es.len(),
{
    if es.len() == 0 {
        Seq::empty()
    } else {
        enc_entries(es.drop_last()) + enc_entry(es.last())
    }
}

/// The text of a store: the number of entries, then each entry in order.
pub open spec fn enc_db(es: Seq<EntryModel>) -> Seq<char> {
    enc_nat(es.len()) + enc_entries(es)
}

pub open spec fn parse_field(s: Seq<char>, p: int) -> Option<(FieldModel, int)> {
    match parse_nat(s, p) {
        Some((slot, at1)) => if 0 <= at1 < s.len() && kind_of(s[at1]) is Some {
            match parse_str(s, at1 + 1) {
                Some((v, at2)) => Some(
                    (FieldModel { slot_id: slot, kind: kind_of(s[at1])->0, value: v }, at2),
                ),
                None => None,
            }
        } else {
            None
        },
        None => None,
    }
}

pub open spec fn parse_fields(s: Seq<char>, p: int, n: nat) -> Option<(Seq<FieldModel>, int)>
    decreases n,
{
    if n == 0 {
        Some((Seq::empty(), p))
    } else {
        match parse_fields(s, p, (n - 1) as nat) {
            Some((fs, q)) => match parse_field(s, q) {
                Some((f, q2)) => Some((fs.push(f), q2)),
                None => None,
            },
            None => None,
        }
    }
}

pub open spec fn parse_entry(s: Seq<char>, p: int) -> Option<(EntryModel, int)> {
    match parse_nat(s, p) {
        Some((id, at1)) => match parse_str(s, at1) {
            Some((title, at2)) => match parse_nat(s, at2) {
                Some((n, at3)) => match parse_fields(s, at3, n) {
                    Some((fs, at4)) => Some((EntryModel { id, title, fields: fs }, at4)),
                    None => None,
                },
                None => None,
            },
            None => None,
        },
        None => None,
    }
}

pub open spec fn parse_entries(s: Seq<char>, p: int, n: nat) -> Option<(Seq<EntryModel>, int)>
    decreases n,
{
    if n == 0 {
        Some((Seq::empty(), p))
    } else {
        match parse_entries(s, p, (n - 1) as nat) {
            Some((es, q)) => match parse_entry(s, q) {
                Some((e, q2)) => Some((es.push(e), q2)),
                None => None,
            },
            None => None,
        }
    }
}

/// The store that a text spells, if it spells one with nothing left over.
pub open spec fn parse_db(s: Seq<char>) -> Option<Seq<EntryModel>> {
    match parse_nat(s, 0) {
        Some((n, p)) => match parse_entries(s, p, n) {
            Some((es, q)) => if q == s.len() {
                Some(es)
            } else {
                None
            },
            None => None,
        },
        None => None,
    }
}

fn kind_to_char(k: DynFieldKind) -> (c: char)
    ensures
        c == kind_char(k),
        kind_of(c) == Some(k),
{
    match k {
        DynFieldKind::TextLine => 't',
        DynFieldKind::SecretLine => 's',
        DynFieldKind::Url => 'u',
        DynFieldKind::MultiLine => 'm',
    }
}

fn char_to_kind(c: char) -> (r: Option<DynFieldKind>)
    ensures
        r == kind_of(c),
{
    if c == 't' {
        Some(DynFieldKind::TextLine)
    } else if c == 's' {
        Some(DynFieldKind::SecretLine)
    } else if c == 'u' {
        Some(DynFieldKind::Url)
    } else if c == 'm' {
        Some(DynFieldKind::MultiLine)
    } else {
        None
    }
}

fn write_field(out: &mut String, f: &DbEntryField)
    ensures
        final(out)@ == old(out)@ + enc_field(f@),
{
    write_nat(out, f.slot_id);
    push_char(out, kind_to_char(f.kind));
    write_str(out, f.value.as_str());
    assert(final(out)@ =~= old(out)@ + enc_field(f@));
}

fn write_entry(out: &mut String, e: &DbEntry)
    ensures
        final(out)@ == old(out)@ + enc_entry(e@),
{
    let ghost start = out@;
    write_nat(out, e.id);
    write_str(out, e.title.as_str());
    write_nat(out, e.fields.len());
    let ghost head = out@;
    let ghost m = fields_model(e.fields@);
    let mut i: usize = 0;
    assert(m.take(0) =~= Seq::<FieldModel>::empty());
    assert(head =~= head + enc_fields(m.take(0)));
    while i < e.fields.len()
        invariant
            i <= e.fields.len(),
            m == fields_model(e.fields@),
            out@ == head + enc_fields(m.take(i as int)),
        decreases e.fields.len() - i,
    {
        write_field(out, &e.fields[i]);
        assert(m.take(i + 1).drop_last() =~= m.take(i as int));
        assert(out@ =~= head + enc_fields(m.take(i + 1)));
        i = i + 1;
    }
    assert(m.take(i as int) =~= m);
    assert(out@ =~= start + enc_entry(e@));
}

/// The text of the store: `serialize` and `deserialize` are inverse on every store.
pub fn serialize(db: &Db) -> (r: String)
    ensures
        r@ == enc_db(db@),
{
    let mut out = String::new();
    write_nat(&mut out, db.contents.len());
    let ghost head = out@;
    let ghost m = db@;
    let mut i: usize = 0;
    assert(m.take(0) =~= Seq::<EntryModel>::empty());
    assert(head =~= head + enc_entries(m.take(0)));
    while i < db.contents.len()
        invariant
            i <= db.contents.len(),
            m == db@,
            out@ == head + enc_entries(m.take(i as int)),
        decreases db.contents.len() - i,
    {
        write_entry(&mut out, &db.contents[i]);
        assert(m.take(i + 1).drop_last() =~= m.take(i as int));
        assert(out@ =~= head + enc_entries(m.take(i + 1)));
        i = i + 1;
    }
    assert(m.take(i as int) =~= m);
    assert(out@ =~= enc_db(db@));
    out
}

fn read_field(s: &Vec<char>, p: usize) -> (r: Option<(DbEntryField, usize)>)
    ensures
        match parse_field(s@, p as int) {
            Some((f, q)) => r matches Some((rf, rq)) && rf@ == f && rq == q,
            None => r is None,
        },
{
    let len = s.len();
    match read_nat(s, p) {
        Some((slot, at1)) => {
            if at1 >= s.len() {
                return None;
            }
            match char_to_kind(s[at1]) {
                Some(kind) => match read_str(s, at1 + 1) {
                    Some((value, at2)) => Some((DbEntryField { slot_id: slot, kind, value }, at2)),
                    None => None,
                },
                None => None,
            }
        },
        None => None,
    }
}

proof fn lemma_parse_fields_stops(s: Seq<char>, p: int, i: nat, n: nat)
    requires
        i <= n,
        parse_fields(s, p, i) is None,
    ensures
        parse_fields(s, p, n) is None,
    decreases n - i,
{
    if i < n {
        lemma_parse_fields_stops(s, p, i, (n - 1) as nat);
    }
}

proof fn lemma_parse_entries_stops(s: Seq<char>, p: int, i: nat, n: nat)
    requires
        i <= n,
        parse_entries(s, p, i) is None,
    ensures
        parse_entries(s, p, n) is None,
    decreases n - i,
{
    if i < n {
        lemma_parse_entries_stops(s, p, i, (n - 1) as nat);
    }
}

fn read_entry(s: &Vec<char>, p: usize) -> (r: Option<(DbEntry, usize)>)
    ensures
        match parse_entry(s@, p as int) {
            Some((e, q)) => r matches Some((re, rq)) && re@ == e && rq == q,
            None => r is None,
        },
{
    let len = s.len();
    let (id, at1) = match read_nat(s, p) {
        Some(x) => x,
        None => return None,
    };
    let (title, at2) = match read_str(s, at1) {
        Some(x) => x,
        None => return None,
    };
    let (n, at3) = match read_nat(s, at2) {
        Some(x) => x,
        None => return None,
    };
    assert(parse_nat(s@, p as int) == Some((id as nat, at1 as int)));
    assert(parse_str(s@, at1 as int) == Some((title@, at2 as int)));
    assert(parse_nat(s@, at2 as int) == Some((n as nat, at3 as int)));
    let mut fields: Vec<DbEntryField> = Vec::new();
    let mut pos = at3;
    let mut i: usize = 0;
    assert(fields_model(fields@) =~= Seq::<FieldModel>::empty());
    while i < n
        invariant
            len == s@.len(),
            i <= n,
            parse_fields(s@, at3 as int, i as nat) == Some((fields_model(fields@), pos as int)),
            parse_nat(s@, p as int) == Some((id as nat, at1 as int)),
            parse_str(s@, at1 as int) == Some((title@, at2 as int)),
            parse_nat(s@, at2 as int) == Some((n as nat, at3 as int)),
        decreases n - i,
    {
        match read_field(s, pos) {
            Some((f, q)) => {
                let ghost before = fields@;
                fields.push(f);
                assert(fields_model(fields@) =~= fields_model(before).push(f@));
                pos = q;
            },
            None => {
                proof {
                    assert(parse_fields(s@, at3 as int, (i + 1) as nat) is None);
                    lemma_parse_fields_stops(s@, at3 as int, (i + 1) as nat, n as nat);
                }
                return None;
            },
        }
        i = i + 1;
    }
    Some((DbEntry { id, title, fields }, pos))
}

/// Reads a store back from its text; fails on any text that `serialize` could not have written.
pub fn deserialize(s: &str) -> (r: Result<Db, VaultError>)
    ensures
        match parse_db(s@) {
            Some(es) => r matches Ok(db) && db@ == es,
            None => r == Err::<Db, VaultError>(VaultError::MalformedStore),
        },
{
    let cs = chars_of(s);
    let len = cs.len();
    let (n, p) = match read_nat(&cs, 0) {
        Some(x) => x,
        None => return Err(VaultError::MalformedStore),
    };
    assert(parse_nat(s@, 0) == Some((n as nat, p as int)));
    let mut contents: Vec<DbEntry> = Vec::new();
    let mut pos = p;
    let mut i: usize = 0;
    assert(entries_model(contents@) =~= Seq::<EntryModel>::empty());
    while i < n
        invariant
            len == cs@.len(),
            cs@ == s@,
            i <= n,
            parse_entries(s@, p as int, i as nat) == Some((entries_model(contents@), pos as int)),
            parse_nat(s@, 0) == Some((n as nat, p as int)),
        decreases n - i,
    {
        match read_entry(&cs, pos) {
            Some((e, q)) => {
                let ghost before = contents@;
                contents.push(e);
                assert(entries_model(contents@) =~= entries_model(before).push(e@));
                pos = q;
            },
            None => {
                proof {
                    assert(parse_entries(s@, p as int, (i + 1) as nat) is None);
                    lemma_parse_entries_stops(s@, p as int, (i + 1) as nat, n as nat);
                }
                return Err(VaultError::MalformedStore);
            },
        }
        i = i + 1;
    }
    if pos != len {
        return Err(VaultError::MalformedStore);
    }
    Ok(Db { contents })
}

pub open spec fn field_fits(f: FieldModel) -> bool {
    f.slot_id <= usize::MAX && f.value.len() <= usize::MAX
}

pub open spec fn entry_fits(e: EntryModel) -> bool {
    &&& e.id <= usize::MAX
    &&& e.title.len() <= usize::MAX
    &&& e.fields.len() <= usize::MAX
    &&& forall|i: int| 0 <= i < e.fields.len() ==> field_fits(#[trigger] e.fields[i])
}

/// Every number and length of the store fits a machine word, as for any store held in memory.
pub open spec fn store_fits(es: Seq<EntryModel>) -> bool {
    &&& es.len() <= usize::MAX
    &&& forall|i: int| 0 <= i < es.len() ==> entry_fits(#[trigger] es[i])
}

proof fn lemma_split(s: Seq<char>, p: int, a: Seq<char>, b: Seq<char>)
    requires
        0 <= p,
        p + a.len() + b.len() <= s.len(),
        s.subrange(p, p + (a + b).len()) == a + b,
    ensures
        s.subrange(p, p + a.len()) == a,
        s.subrange(p + a.len(), p + a.len() + b.len()) == b,
{
    let w = s.subrange(p, p + (a + b).len());
    assert(s.subrange(p, p + a.len()) =~= w.subrange(0, a.len() as int));
    assert(w.subrange(0, a.len() as int) =~= a);
    assert(s.subrange(p + a.len(), p + a.len() + b.len()) =~= w.subrange(a.len() as int, (a + b).len() as int));
    assert(w.subrange(a.len() as int, (a + b).len() as int) =~= b);
}

proof fn lemma_parse_field(s: Seq<char>, p: int, f: FieldModel)
    requires
        0 <= p,
        field_fits(f),
        p + enc_field(f).len() <= s.len(),
        s.subrange(p, p + enc_field(f).len()) == enc_field(f),
    ensures
        parse_field(s, p) == Some((f, p + enc_field(f).len())),
{
    let a = enc_nat(f.slot_id);
    let k = seq![kind_char(f.kind)];
    let v = enc_str(f.value);
    lemma_split(s, p, a + k, v);
    lemma_split(s, p, a, k);
    lemma_parse_nat(s, p, f.slot_id);
    assert(s[p + a.len()] == s.subrange(p + a.len(), p + a.len() + 1)[0]);
    lemma_parse_str(s, p + a.len() + 1, f.value);
}

proof fn lemma_parse_fields(s: Seq<char>, p: int, fs: Seq<FieldModel>)
    requires
        0 <= p,
        forall|i: int| 0 <= i < fs.len() ==> field_fits(#[trigger] fs[i]),
        p + enc_fields(fs).len() <= s.len(),
        s.subrange(p, p + enc_fields(fs).len()) == enc_fields(fs),
    ensures
        parse_fields(s, p, fs.len()) == Some((fs, p + enc_fields(fs).len())),
    decreases fs.len(),
{
    if fs.len() > 0 {
        let init = fs.drop_last();
        lemma_split(s, p, enc_fields(init), enc_field(fs.last()));
        lemma_parse_fields(s, p, init);
        lemma_parse_field(s, p + enc_fields(init).len(), fs.last());
        assert(init.push(fs.last()) =~= fs);
    }
}

proof fn lemma_parse_entry(s: Seq<char>, p: int, e: EntryModel)
    requires
        0 <= p,
        entry_fits(e),
        p + enc_entry(e).len() <= s.len(),
        s.subrange(p, p + enc_entry(e).len()) == enc_entry(e),
    ensures
        parse_entry(s, p) == Some((e, p + enc_entry(e).len())),
{
    let a = enc_nat(e.id);
    let b = enc_str(e.title);
    let c = enc_nat(e.fields.len());
    let d = enc_fields(e.fields);
    lemma_split(s, p, a + b + c, d);
    lemma_split(s, p, a + b, c);
    lemma_split(s, p, a, b);
    lemma_parse_nat(s, p, e.id);
    lemma_parse_str(s, p + a.len(), e.title);
    lemma_parse_nat(s, p + a.len() + b.len(), e.fields.len());
    lemma_parse_fields(s, p + a.len() + b.len() + c.len(), e.fields);
}

proof fn lemma_parse_entries(s: Seq<char>, p: int, es: Seq<EntryModel>)
    requires
        0 <= p,
        forall|i: int| 0 <= i < es.len() ==> entry_fits(#[trigger] es[i]),
        p + enc_entries(es).len() <= s.len(),
        s.subrange(p, p + enc_entries(es).len()) == enc_entries(es),
    ensures
        parse_entries(s, p, es.len()) == Some((es, p + enc_entries(es).len())),
    decreases es.len(),
{
    if es.len() > 0 {
        let init = es.drop_last();
        lemma_split(s, p, enc_entries(init), enc_entry(es.last()));
        lemma_parse_entries(s, p, init);
        lemma_parse_entry(s, p + enc_entries(init).len(), es.last());
        assert(init.push(es.last()) =~= es);
    }
}

/// Reading back the text of a store gives the same entries, in the same order.
pub proof fn lemma_parse_enc_db(es: Seq<EntryModel>)
    requires
        store_fits(es),
    ensures
        parse_db(enc_db(es)) == Some(es),
{
    let s = enc_db(es);
    assert(s.subrange(0, s.len() as int) =~= s);
    lemma_split(s, 0, enc_nat(es.len()), enc_entries(es));
    lemma_parse_nat(s, 0, es.len());
    lemma_parse_entries(s, enc_nat(es.len()).len() as int, es);
}

/// Round trip of the store: `deserialize(serialize(db))` gives back the entries of `db`,
/// logically equal and in the same order.
pub proof fn law_store_round_trip(db: &Db)
    requires
        store_fits(db@),
    ensures
        parse_db(enc_db(db@)) == Some(db@),
{
    lemma_parse_enc_db(db@);
}

} // verus!
