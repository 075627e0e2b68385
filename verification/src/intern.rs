use vstd::prelude::*;

use lasso::Key;

verus! {

/// A deduplicating string table: equal content always yields an equal
/// `StringId`, distinct content yields distinct ids, and the table only
/// grows. The table itself is kept in a `lasso::Rodeo`.
#[verifier::external_body]
pub struct Interner {
    rodeo: lasso::Rodeo,
}

/// The strings held by an `Interner`, in the order they were first interned;
/// a `StringId` is an index into this sequence.
pub uninterp spec fn interner_strings(interner: Interner) -> Seq<Seq<char>>;

/// A stable, copyable handle for one interned string.
#[derive(Debug, PartialEq, Eq, Structural, Clone, Copy, Hash)]
pub struct StringId(u32);

impl View for StringId {
    type V = int;

    /// The index of the interned string inside its interner's table.
    closed spec fn view(&self) -> int {
        self.0 as int
    }
}

/// Whether the table already holds `s`.
pub open spec fn interner_contains(tbl: Seq<Seq<char>>, s: Seq<char>) -> bool {
    exists|i: int| 0 <= i < tbl.len() && tbl[i] == s
}

/// The table after interning `s`: unchanged if `s` is already present,
/// extended by `s` at the end otherwise.
pub open spec fn interner_insert(tbl: Seq<Seq<char>>, s: Seq<char>) -> Seq<Seq<char>> {
    if interner_contains(tbl, s) {
        tbl
    } else {
        tbl.push(s)
    }
}

/// The id handed out for `s` when interning it into `tbl`.
pub open spec fn interner_id(tbl: Seq<Seq<char>>, s: Seq<char>) -> int {
    if interner_contains(tbl, s) {
        choose|i: int| 0 <= i < tbl.len() && tbl[i] == s
    } else {
        tbl.len() as int
    }
}

/// No string occurs twice in the table. Every table reachable through this
/// module's functions satisfies this.
pub open spec fn interner_wf(tbl: Seq<Seq<char>>) -> bool {
    forall|i: int, j: int| 0 <= i < j < tbl.len() ==> tbl[i] != tbl[j]
}

impl Interner {
    /// Creates an empty interner.
    ///
    /// Relies on `lasso::Rodeo::new`: a freshly created `Rodeo` holds no
    /// strings.
    #[verifier::external_body]
    pub fn new() -> (r: Interner)
        ensures
            interner_strings(r) == Seq::<Seq<char>>::empty(),
    {
        Interner { rodeo: lasso::Rodeo::new() }
    }
}

/// Interns the string spelled by `chars`, returning its id.
///
/// Relies on `lasso::Rodeo::get_or_intern`: a string already present keeps
/// the key it was first given, and a new string is appended and keyed by its
/// index in insertion order (a `Spur` stores that index plus one).
#[verifier::external_body]
pub(crate) fn intern_chars(interner: &mut Interner, chars: &Vec<char>) -> (r: StringId)
    requires
        interner_strings(*old(interner)).len() < u32::MAX - 1,
    ensures
        interner_strings(*final(interner)) == interner_insert(
            interner_strings(*old(interner)),
            chars@,
        ),
        r@ == interner_id(interner_strings(*old(interner)), chars@),
{
    let text: String = chars.iter().collect();
    let key: lasso::Spur = interner.rodeo.get_or_intern(text);
    StringId(key.into_usize() as u32)
}

/// Collects the characters of `s` into a vector.
fn str_to_chars(s: &str) -> (v: Vec<char>)
    ensures
        v@ == s@,
{
    let len: usize = s.unicode_len();
    let mut v: Vec<char> = Vec::new();
    let mut i: usize = 0;
    while i < len
        invariant
            i <= len,
            len == s@.len(),
            v@ == s@.take(i as int),
        decreases len - i,
    {
        v.push(s.get_char(i));
        i = i + 1;
        proof {
            assert(v@ =~= s@.take(i as int));
        }
    }
    proof {
        assert(v@ =~= s@);
    }
    v
}

impl StringId {
    /// Interns `string` and returns its `StringId`. Interning the same
    /// content again returns the same id; distinct content gets distinct ids.
    pub fn new(string: &str, interner: &mut Interner) -> (r: StringId)
        requires
            interner_strings(*old(interner)).len() < u32::MAX - 1,
        ensures
            interner_strings(*final(interner)) == interner_insert(
                interner_strings(*old(interner)),
                string@,
            ),
            r@ == interner_id(interner_strings(*old(interner)), string@),
    {
        let chars = str_to_chars(string);
        intern_chars(interner, &chars)
    }

    /// Resolves the string content associated with this `StringId`.
    ///
    /// Relies on `lasso::Rodeo::resolve`: the key made from an index returns
    /// the string stored at that index of the insertion-ordered table.
    #[verifier::external_body]
    pub fn resolve(self, interner: &Interner) -> (r: String)
        requires
            self@ < interner_strings(*interner).len(),
        ensures
            r@ == interner_strings(*interner)[self@],
    {
        let key = lasso::Spur::try_from_usize(self.0 as usize).unwrap();
        interner.rodeo.resolve(&key).to_string()
    }
}

/// Interning a string keeps ids valid: the id indexes the new table and the
/// table holds the string's content there.
pub proof fn lemma_interner_id_valid(tbl: Seq<Seq<char>>, s: Seq<char>)
    ensures
        0 <= interner_id(tbl, s) < interner_insert(tbl, s).len(),
        interner_insert(tbl, s)[interner_id(tbl, s)] == s,
        tbl.len() <= interner_insert(tbl, s).len() <= tbl.len() + 1,
        forall|i: int| 0 <= i < tbl.len() ==> interner_insert(tbl, s)[i] == tbl[i],
{
    if interner_contains(tbl, s) {
        let i = choose|i: int| 0 <= i < tbl.len() && tbl[i] == s;
        assert(tbl[i] == s);
    }
}

/// Interning never destroys the table's well-formedness: a string is only
/// appended when it is not yet present.
pub proof fn lemma_interner_insert_wf(tbl: Seq<Seq<char>>, s: Seq<char>)
    requires
        interner_wf(tbl),
    ensures
        interner_wf(interner_insert(tbl, s)),
{
    if !interner_contains(tbl, s) {
        let t1 = tbl.push(s);
        assert forall|i: int, j: int| 0 <= i < j < t1.len() implies t1[i] != t1[j] by {
            if j == tbl.len() {
                assert(t1[i] == tbl[i]);
                assert(!(tbl[i] == s));
            }
        }
    }
}

/// Interning is idempotent: interning the same content a second time leaves
/// the table unchanged and returns the same id as the first call.
pub proof fn lemma_intern_idempotent(tbl: Seq<Seq<char>>, s: Seq<char>)
    requires
        interner_wf(tbl),
    ensures
        interner_insert(interner_insert(tbl, s), s) == interner_insert(tbl, s),
        interner_id(interner_insert(tbl, s), s) == interner_id(tbl, s),
{
    let t1 = interner_insert(tbl, s);
    lemma_interner_id_valid(tbl, s);
    lemma_interner_insert_wf(tbl, s);
    assert(interner_contains(t1, s)) by {
        assert(t1[interner_id(tbl, s)] == s);
    }
    let i2 = interner_id(t1, s);
    assert(0 <= i2 < t1.len() && t1[i2] == s);
    let i1 = interner_id(tbl, s);
    if i1 != i2 {
        assert(t1[i1] == t1[i2]);
        assert(false);
    }
}

/// Distinct content gets distinct ids: interning `s` and then `t`, with
/// `s != t`, returns two different ids.
pub proof fn lemma_intern_injective(tbl: Seq<Seq<char>>, s: Seq<char>, t: Seq<char>)
    requires
        interner_wf(tbl),
        s != t,
    ensures
        interner_id(tbl, s) != interner_id(interner_insert(tbl, s), t),
{
    let t1 = interner_insert(tbl, s);
    lemma_interner_id_valid(tbl, s);
    lemma_interner_id_valid(t1, t);
    let is = interner_id(tbl, s);
    let it = interner_id(t1, t);
    assert(t1[is] == s);
    if is == it {
        assert(interner_insert(t1, t)[it] == t);
        if interner_contains(t1, t) {
            assert(t1[it] == t);
        } else {
            assert(it == t1.len());
        }
        assert(false);
    }
}

} // verus!
