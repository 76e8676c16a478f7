//! Source positions and the table of file names that they refer to.
use vstd::prelude::*;

use crate::text::string_from;
use crate::value::names_view;

verus! {

/// The number of a file name in an `Interner`.
#[derive(PartialEq, Eq, Structural, Debug, Clone, Copy, Default)]
pub struct FileId(pub usize);

/// A position in a source file.
#[derive(PartialEq, Eq, Structural, Debug, Clone, Copy, Default)]
pub struct Span {
    pub line: usize,
    pub column: usize,
    pub file_name_id: FileId,
}

/// A table of file names, each numbered by its position; number 0 is the
/// default name.
pub struct Interner {
    pub files: Vec<String>,
}

impl View for Interner {
    type V = Seq<Seq<char>>;

    open spec fn view(&self) -> Seq<Seq<char>> {
        names_view(self.files@)
    }
}

/// The first position at or after `i` of `name` in `files`.
pub open spec fn position_from(files: Seq<Seq<char>>, name: Seq<char>, i: nat) -> Option<nat>
    decreases files.len() - i,
{
    if i >= files.len() {
        None
    } else if files[i as int] == name {
        Some(i)
    } else {
        position_from(files, name, i + 1)
    }
}

/// The table after interning `name`, and the number it gives: the number of
/// its first entry, else a new entry at the end.
pub open spec fn intern_spec(files: Seq<Seq<char>>, name: Seq<char>) -> (Seq<Seq<char>>, nat) {
    match position_from(files, name, 0) {
        Some(i) => (files, i),
        None => (files.push(name), files.len()),
    }
}

proof fn lemma_position(files: Seq<Seq<char>>, name: Seq<char>, i: nat)
    ensures
        position_from(files, name, i) matches Some(k) ==> i <= k < files.len() && files[k as int]
            == name,
    decreases files.len() - i,
{
    if i < files.len() && files[i as int] != name {
        lemma_position(files, name, i + 1);
    }
}

/// Law: the number that interning a name gives resolves to that name, and
/// interning it again gives the same number and leaves the table unchanged.
pub proof fn law_intern_resolve(files: Seq<Seq<char>>, name: Seq<char>)
    ensures
        intern_spec(files, name).1 < intern_spec(files, name).0.len(),
        intern_spec(files, name).0[intern_spec(files, name).1 as int] == name,
        intern_spec(intern_spec(files, name).0, name) == intern_spec(files, name),
        files.is_prefix_of(intern_spec(files, name).0),
{
    lemma_position(files, name, 0);
    let (f2, k) = intern_spec(files, name);
    assert(files.is_prefix_of(f2)) by {
        assert(f2.subrange(0, files.len() as int) =~= files);
    }
    if position_from(files, name, 0) is None {
        lemma_position_prefix(files, name, 0);
        lemma_position_push(files, name, 0);
    }
}

proof fn lemma_position_prefix(files: Seq<Seq<char>>, name: Seq<char>, i: nat)
    requires
        position_from(files, name, i) is None,
    ensures
        forall|k: int| i <= k < files.len() ==> files[k] != name,
    decreases files.len() - i,
{
    if i < files.len() {
        lemma_position_prefix(files, name, i + 1);
    }
}

proof fn lemma_position_push(files: Seq<Seq<char>>, name: Seq<char>, i: nat)
    requires
        i <= files.len(),
        forall|k: int| i <= k < files.len() ==> files[k] != name,
    ensures
        position_from(files.push(name), name, i) == Some(files.len()),
    decreases files.len() - i,
{
    if i < files.len() {
        lemma_position_push(files, name, i + 1);
    }
}

/// Whether no name occurs twice in a table. Tables made by `Interner::new`
/// and `intern` have this property.
pub open spec fn distinct_names(files: Seq<Seq<char>>) -> bool {
    forall|i: int, j: int| 0 <= i < j < files.len() ==> files[i] != files[j]
}

proof fn lemma_position_of_entry(files: Seq<Seq<char>>, name: Seq<char>, k: nat, i: nat)
    requires
        distinct_names(files),
        i <= k < files.len(),
        files[k as int] == name,
    ensures
        position_from(files, name, i) == Some(k),
    decreases k - i,
{
    if i < k {
        assert(files[i as int] != files[k as int]);
        lemma_position_of_entry(files, name, k, i + 1);
    }
}

/// Law: interning keeps the names of a table distinct and only appends to
/// the table.
pub proof fn law_intern_keeps_distinct(files: Seq<Seq<char>>, name: Seq<char>)
    requires
        distinct_names(files),
    ensures
        distinct_names(intern_spec(files, name).0),
        files.is_prefix_of(intern_spec(files, name).0),
{
    law_intern_resolve(files, name);
    if position_from(files, name, 0) is None {
        lemma_position_prefix(files, name, 0);
        let f2 = files.push(name);
        assert forall|i: int, j: int| 0 <= i < j < f2.len() implies f2[i] != f2[j] by {
            if j == files.len() {
                assert(f2[i] == files[i]);
            }
        }
    }
}

/// Law: in a table of distinct names, interning a name that the table holds
/// at `k` gives `k` and leaves the table unchanged.
pub proof fn law_intern_existing(files: Seq<Seq<char>>, name: Seq<char>, k: nat)
    requires
        distinct_names(files),
        k < files.len(),
        files[k as int] == name,
    ensures
        intern_spec(files, name) == (files, k),
{
    lemma_position_of_entry(files, name, k, 0);
}

/// Law: after `a` is interned in a table of distinct names, giving `ia`, and
/// any interning follows, `ia` still resolves to `a`; interning `b` then gives
/// the same number exactly when `b` is `a`; and interning `a` again, after
/// that, gives `ia` again.
pub proof fn law_intern_two_calls(t0: Seq<Seq<char>>, a: Seq<char>, t2: Seq<Seq<char>>, b: Seq<char>)
    requires
        distinct_names(t0),
        intern_spec(t0, a).0.is_prefix_of(t2),
        distinct_names(t2),
    ensures
        ({
            let ia = intern_spec(t0, a).1;
            let (t3, ib) = intern_spec(t2, b);
            &&& ia < t2.len() && t2[ia as int] == a
            &&& (ia == ib <==> a == b)
            &&& intern_spec(t3, a) == (t3, ia)
        }),
{
    let (t1, ia) = intern_spec(t0, a);
    law_intern_resolve(t0, a);
    assert(t2[ia as int] == t1[ia as int]);
    law_intern_resolve(t2, b);
    law_intern_keeps_distinct(t2, b);
    let (t3, ib) = intern_spec(t2, b);
    assert(t3[ia as int] == t2[ia as int]);
    if a == b {
        law_intern_existing(t2, b, ia);
    }
    law_intern_existing(t3, a, ia);
}

impl Interner {
    /// A table holding only the default name.
    pub fn new() -> (r: Self)
        ensures
            r@ == seq!["DEFAULT"@],
            distinct_names(r@),
    {
        let mut files: Vec<String> = Vec::new();
        files.push(string_from("DEFAULT"));
        let r = Interner { files };
        assert(r@ =~= seq!["DEFAULT"@]);
        r
    }

    /// Interns `filename` (see `intern_spec`).
    pub fn intern(&mut self, filename: String) -> (id: FileId)
        ensures
            (final(self)@, id.0 as nat) == intern_spec(old(self)@, filename@),
    {
        let ghost files = self@;
        let mut i: usize = 0;
        while i < self.files.len()
            invariant
                i <= self.files.len(),
                files == self@,
                position_from(files, filename@, 0) == position_from(files, filename@, i as nat),
            decreases self.files.len() - i,
        {
            assert(files[i as int] == self.files@[i as int]@);
            if self.files[i] == filename {
                return FileId(i);
            }
            i += 1;
        }
        let n = self.files.len();
        self.files.push(filename);
        assert(self@ =~= files.push(filename@));
        FileId(n)
    }

    /// The name numbered `id`.
    pub fn resolve(&self, id: FileId) -> (name: &str)
        requires
            id.0 < self@.len(),
        ensures
            name@ == self@[id.0 as int],
    {
        self.files[id.0].as_str()
    }
}

/// Interns `filename` in the table `interner` (see `Interner::intern`).
pub fn intern(interner: &mut Interner, filename: String) -> (id: FileId)
    ensures
        (final(interner)@, id.0 as nat) == intern_spec(old(interner)@, filename@),
{
    interner.intern(filename)
}

} // verus!
