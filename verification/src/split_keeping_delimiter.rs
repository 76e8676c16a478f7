//! Splitting text at delimiter characters, keeping each delimiter as a piece
//! of its own.
use vstd::prelude::*;

use crate::text::{chars_of, string_of};
use crate::value::names_view;

verus! {

/// A splitter of a text at delimiter characters: each call of `next` gives
/// the next piece, either one delimiter or the longest run of other
/// characters.
pub struct SplitKeepingDelimiter {
    pub data: Vec<char>,
    pub delimiters: Vec<char>,
    pub start: usize,
}

/// The end of the run of non-delimiters that starts at `i`.
pub open spec fn run_end(data: Seq<char>, delims: Seq<char>, i: nat) -> nat
    decreases data.len() - i,
{
    if i >= data.len() || delims.contains(data[i as int]) {
        i
    } else {
        run_end(data, delims, i + 1)
    }
}

/// The piece that starts at `start`, and where the next one starts.
pub open spec fn next_piece(data: Seq<char>, delims: Seq<char>, start: nat) -> Option<(Seq<char>, nat)> {
    if start >= data.len() {
        None
    } else if delims.contains(data[start as int]) {
        Some((seq![data[start as int]], start + 1))
    } else {
        let end = run_end(data, delims, start);
        Some((data.subrange(start as int, end as int), end))
    }
}

/// The pieces of `data` from `start` on.
pub open spec fn pieces(data: Seq<char>, delims: Seq<char>, start: nat) -> Seq<Seq<char>>
    decreases data.len() - start,
{
    match next_piece(data, delims, start) {
        None => seq![],
        Some((p, next)) => if start < next <= data.len() {
            seq![p] + pieces(data, delims, next)
        } else {
            seq![]
        },
    }
}

/// The pieces, joined.
pub open spec fn joined(ps: Seq<Seq<char>>) -> Seq<char>
    decreases ps.len(),
{
    if ps.len() == 0 {
        seq![]
    } else {
        ps[0] + joined(ps.drop_first())
    }
}

proof fn lemma_run_end(data: Seq<char>, delims: Seq<char>, i: nat)
    requires
        i <= data.len(),
    ensures
        i <= run_end(data, delims, i) <= data.len(),
        forall|k: int| i <= k < run_end(data, delims, i) ==> !delims.contains(#[trigger] data[k]),
        run_end(data, delims, i) < data.len() ==> delims.contains(data[run_end(data, delims, i) as int]),
    decreases data.len() - i,
{
    if i < data.len() && !delims.contains(data[i as int]) {
        lemma_run_end(data, delims, i + 1);
    }
}

/// Law: the pieces, joined, give back the text from `start` on.
pub proof fn law_pieces_join(data: Seq<char>, delims: Seq<char>, start: nat)
    requires
        start <= data.len(),
    ensures
        joined(pieces(data, delims, start)) == data.subrange(start as int, data.len() as int),
    decreases data.len() - start,
{
    if start < data.len() {
        if !delims.contains(data[start as int]) {
            lemma_run_end(data, delims, start);
        }
        law_piece_shape(data, delims, start);
        let (p, next) = next_piece(data, delims, start).unwrap();
        law_pieces_join(data, delims, next);
        let ps = pieces(data, delims, start);
        assert(ps.drop_first() =~= pieces(data, delims, next));
        assert(data.subrange(start as int, data.len() as int) =~= p + data.subrange(
            next as int,
            data.len() as int,
        ));
    } else {
        assert(data.subrange(start as int, data.len() as int) =~= seq![]);
    }
}

/// Law: every piece is one delimiter or a nonempty run without delimiters.
pub proof fn law_piece_shape(data: Seq<char>, delims: Seq<char>, start: nat)
    requires
        start < data.len(),
    ensures
        next_piece(data, delims, start) matches Some((p, next)) && start < next <= data.len() && (
        (p.len() == 1 && delims.contains(p[0])) || (p.len() > 0 && forall|k: int|
            0 <= k < p.len() ==> !delims.contains(#[trigger] p[k]))),
{
    if !delims.contains(data[start as int]) {
        lemma_run_end(data, delims, start);
        let end = run_end(data, delims, start);
        assert forall|k: int| 0 <= k < end - start implies !delims.contains(
            #[trigger] data.subrange(start as int, end as int)[k],
        ) by {
            assert(data.subrange(start as int, end as int)[k] == data[start + k]);
        }
    }
}

/// Whether a piece is one delimiter, or a nonempty run of other characters.
pub open spec fn piece_shaped(p: Seq<char>, delims: Seq<char>) -> bool {
    ||| p.len() == 1 && delims.contains(p[0])
    ||| p.len() > 0 && forall|k: int| 0 <= k < p.len() ==> !delims.contains(#[trigger] p[k])
}

/// Law: every piece of a text has the shape of `piece_shaped`.
pub proof fn law_pieces_shaped(data: Seq<char>, delims: Seq<char>, start: nat)
    ensures
        forall|i: int|
            0 <= i < pieces(data, delims, start).len() ==> piece_shaped(
                #[trigger] pieces(data, delims, start)[i],
                delims,
            ),
    decreases data.len() - start,
{
    if start < data.len() {
        law_piece_shape(data, delims, start);
        let (p, next) = next_piece(data, delims, start).unwrap();
        law_pieces_shaped(data, delims, next);
        let ps = pieces(data, delims, start);
        assert forall|i: int| 0 <= i < ps.len() implies piece_shaped(#[trigger] ps[i], delims) by {
            if i > 0 {
                assert(ps[i] == pieces(data, delims, next)[i - 1]);
            }
        }
    }
}

/// Whether `c` is one of the delimiters.
fn is_delim(delims: &Vec<char>, c: char) -> (b: bool)
    ensures
        b == delims@.contains(c),
{
    let mut i: usize = 0;
    while i < delims.len()
        invariant
            i <= delims.len(),
            forall|k: int| 0 <= k < i ==> delims@[k] != c,
        decreases delims.len() - i,
    {
        if delims[i] == c {
            return true;
        }
        i += 1;
    }
    false
}

impl SplitKeepingDelimiter {
    /// The next piece, if any is left (see `next_piece`).
    pub fn next(&mut self) -> (r: Option<String>)
        requires
            old(self).start <= old(self).data@.len(),
        ensures
            final(self).data == old(self).data,
            final(self).delimiters == old(self).delimiters,
            final(self).start <= final(self).data@.len(),
            match next_piece(old(self).data@, old(self).delimiters@, old(self).start as nat) {
                None => r is None && final(self).start == old(self).start,
                Some((p, next)) => r matches Some(s) && s@ == p && final(self).start == next,
            },
    {
        let n = self.data.len();
        if self.start >= n {
            return None;
        }
        let start = self.start;
        if is_delim(&self.delimiters, self.data[start]) {
            self.start = start + 1;
            let s = string_of(&self.data, start, start + 1);
            assert(s@ =~= seq![self.data@[start as int]]);
            return Some(s);
        }
        let mut end = start;
        while end < n && !is_delim(&self.delimiters, self.data[end])
            invariant
                start <= end <= n,
                n == self.data@.len(),
                run_end(self.data@, self.delimiters@, start as nat) == run_end(
                    self.data@,
                    self.delimiters@,
                    end as nat,
                ),
            decreases n - end,
        {
            end += 1;
        }
        self.start = end;
        Some(string_of(&self.data, start, end))
    }

    /// All the pieces that are left (see `pieces`), calling `next` until it
    /// gives `None`. Joined, they give back the text from the start on; each
    /// is one delimiter or a run of other characters; afterwards the splitter
    /// is at the end of the text, so `next` gives `None` again.
    pub fn collect_all(&mut self) -> (r: Vec<String>)
        requires
            old(self).start <= old(self).data@.len(),
        ensures
            names_view(r@) == pieces(
                old(self).data@,
                old(self).delimiters@,
                old(self).start as nat,
            ),
            joined(names_view(r@)) == old(self).data@.subrange(
                old(self).start as int,
                old(self).data@.len() as int,
            ),
            forall|i: int| 0 <= i < r@.len() ==> piece_shaped(#[trigger] r@[i]@, old(self).delimiters@),
            final(self).data == old(self).data,
            final(self).delimiters == old(self).delimiters,
            final(self).start == final(self).data@.len(),
            next_piece(final(self).data@, final(self).delimiters@, final(self).start as nat) is None,
    {
        let ghost data = self.data@;
        let ghost delims = self.delimiters@;
        let ghost s0 = self.start as nat;
        let mut out: Vec<String> = Vec::new();
        assert(names_view(out@) + pieces(data, delims, s0) =~= pieces(data, delims, s0));
        loop
            invariant
                self.data@ == data,
                self.delimiters@ == delims,
                self.data == old(self).data,
                self.delimiters == old(self).delimiters,
                data == old(self).data@,
                delims == old(self).delimiters@,
                s0 == old(self).start as nat,
                s0 <= data.len(),
                self.start <= data.len(),
                names_view(out@) + pieces(data, delims, self.start as nat) == pieces(
                    data,
                    delims,
                    s0,
                ),
            decreases data.len() - self.start,
        {
            let ghost before = self.start as nat;
            let ghost o = out@;
            match self.next() {
                None => {
                    assert(pieces(data, delims, before) =~= seq![]);
                    assert(names_view(out@) =~= pieces(data, delims, s0));
                    proof {
                        law_pieces_join(data, delims, s0);
                        law_pieces_shaped(data, delims, s0);
                    }
                    assert forall|i: int| 0 <= i < out@.len() implies piece_shaped(
                        #[trigger] out@[i]@,
                        delims,
                    ) by {
                        assert(out@[i]@ == names_view(out@)[i]);
                    }
                    return out;
                },
                Some(s) => {
                    proof {
                        law_piece_shape(data, delims, before);
                    }
                    out.push(s);
                    assert(names_view(out@) =~= names_view(o).push(
                        s@,
                    ));
                    assert(pieces(data, delims, before) =~= seq![s@] + pieces(
                        data,
                        delims,
                        self.start as nat,
                    ));
                },
            }
        }
    }
}

/// Splitting a text at delimiters, keeping them.
pub trait SplitKeepingDelimiterExt {
    /// A splitter of this text at the characters `delimiters`.
    fn split_keeping_delimiter(&self, delimiters: &[char]) -> SplitKeepingDelimiter;
}

impl SplitKeepingDelimiterExt for str {
    fn split_keeping_delimiter(&self, delimiters: &[char]) -> (r: SplitKeepingDelimiter)
        ensures
            r.data@ == self@,
            r.delimiters@ == delimiters@,
            r.start == 0,
    {
        SplitKeepingDelimiter {
            data: chars_of(self),
            delimiters: vstd::slice::slice_to_vec(delimiters),
            start: 0,
        }
    }
}

} // verus!
