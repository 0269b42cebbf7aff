//! The line scanner: owns the wordlist bytes and a read position, and
//! searches the remaining region line by line.

use vstd::prelude::*;
use crate::lines::{content_of, copy_range, find_line_end, line_end, lines_from, LINE_TERMINATOR};
use crate::matcher::{compile_pattern, regex_match_within, regex_matches, regex_valid};

verus! {

/// What the characters of a Rust `String` built from these bytes are, if
/// the bytes are valid UTF-8: what `String::from_utf8` returns.
pub uninterp spec fn utf8_of(b: Seq<u8>) -> Option<Seq<char>>;

/// Relies on `String::from_utf8`: it returns `Ok` exactly when the bytes
/// are valid UTF-8, and the string then holds the characters those bytes
/// encode; the result depends on the bytes alone.
#[verifier::external_body]
fn bytes_to_string(b: Vec<u8>) -> (r: Option<String>)
    ensures
        r is Some <==> utf8_of(b@) is Some,
        r is Some ==> r->0@ == utf8_of(b@)->0,
{
    match String::from_utf8(b) {
        Ok(s) => Some(s),
        Err(_) => None,
    }
}

/// How a search can fail.
#[derive(Debug, Clone, Copy, PartialEq, Eq, Structural)]
pub enum GrepError {
    /// The path named no file that could be opened.
    FileNotFound,
    /// The file could not be opened or read.
    IoError,
    /// The pattern is not a well-formed regular expression.
    InvalidPattern,
    /// A matched line is not valid UTF-8.
    EncodingError,
}

/// Whether a line matches the pattern: the regex is searched within the
/// line's content, without the trailing terminator.
pub open spec fn line_matches(p: Seq<char>, line: Seq<u8>) -> bool {
    regex_matches(p, content_of(line))
}

/// The matching predicate for one pattern, as a value, so that every spec
/// and proof speaks of the same function.
pub open spec fn match_pred(p: Seq<char>) -> spec_fn(Seq<u8>) -> bool {
    |line: Seq<u8>| line_matches(p, line)
}

/// The lines of the region of `b` starting at `pos` that match `p`, in file
/// order.
pub open spec fn matched_lines(b: Seq<u8>, pos: int, p: Seq<char>) -> Seq<Seq<u8>> {
    lines_from(b, pos).filter(match_pred(p))
}

/// Whether every line of `ls` is valid UTF-8.
pub open spec fn all_lines_utf8(ls: Seq<Seq<u8>>) -> bool {
    forall|i: int| 0 <= i < ls.len() ==> utf8_of(#[trigger] ls[i]) is Some
}

/// A wordlist held in memory, with a read position.
///
/// The position starts at the beginning, advances as [`Self::grep`] consumes
/// lines, and is never rewound implicitly: a second search scans only the
/// remaining region. Call [`Self::rewind`] for an independent repeated
/// search.
pub struct GreppableWordlist {
    bytes: Vec<u8>,
    pos: usize,
}

impl GreppableWordlist {
    /// The wordlist's bytes.
    pub closed spec fn bytes_view(self) -> Seq<u8> {
        self.bytes@
    }

    /// The current read position.
    pub closed spec fn pos_view(self) -> int {
        self.pos as int
    }

    /// The read position never passes the end of the bytes.
    pub open spec fn wf(self) -> bool {
        0 <= self.pos_view() <= self.bytes_view().len()
    }

    /// Adopts the given bytes as the wordlist, with the read position at the
    /// start.
    pub fn new_from_bytes(bytes: Vec<u8>) -> (s: Self)
        ensures
            s.wf(),
            s.bytes_view() == bytes@,
            s.pos_view() == 0,
    {
        GreppableWordlist { bytes, pos: 0 }
    }

    /// Moves the read position back to the start of the wordlist, so that
    /// the next search scans the whole file again.
    pub fn rewind(&mut self)
        ensures
            final(self).wf(),
            final(self).bytes_view() == old(self).bytes_view(),
            final(self).pos_view() == 0,
    {
        self.pos = 0;
    }

    /// The current read position, in bytes from the start.
    pub fn position(&self) -> (p: usize)
        ensures
            p as int == self.pos_view(),
    {
        self.pos
    }

    /// Searches the remaining region, from the read position to end-of-file,
    /// for lines matching `pattern`, and returns them in file order, each
    /// with its original terminator. The matcher is applied to each line's
    /// content, without the trailing terminator, so anchors in the pattern
    /// work relative to the line.
    ///
    /// A malformed pattern fails with [`GrepError::InvalidPattern`] before
    /// any scanning, leaving the position unchanged. A matched line that is
    /// not valid UTF-8 fails with [`GrepError::EncodingError`], and the
    /// matches already collected are discarded. A successful search consumes
    /// the region: the position ends at end-of-file.
    pub fn grep(&mut self, pattern: &str) -> (r: Result<Vec<String>, GrepError>)
        requires
            old(self).wf(),
        ensures
            final(self).wf(),
            final(self).bytes_view() == old(self).bytes_view(),
            !regex_valid(pattern@) ==> r == Err::<Vec<String>, GrepError>(GrepError::InvalidPattern)
                && final(self).pos_view() == old(self).pos_view(),
            regex_valid(pattern@) ==> ({
                let ml = matched_lines(old(self).bytes_view(), old(self).pos_view(), pattern@);
                &&& (r is Ok <==> all_lines_utf8(ml))
                &&& (r is Ok ==> {
                    &&& final(self).pos_view() == old(self).bytes_view().len()
                    &&& r->Ok_0@.len() == ml.len()
                    &&& forall|i: int| 0 <= i < ml.len() ==> (#[trigger] r->Ok_0@[i])@ == utf8_of(ml[i])->0
                })
                &&& (r is Err ==> r->Err_0 == GrepError::EncodingError
                    && old(self).pos_view() <= final(self).pos_view() <= old(self).bytes_view().len())
            }),
    {
        let ghost b = self.bytes@;
        let ghost start = self.pos as int;
        let cp = match compile_pattern(pattern) {
            Ok(cp) => cp,
            Err(_) => {
                return Err(GrepError::InvalidPattern);
            },
        };
        let mut out: Vec<String> = Vec::new();
        let ghost mut processed: Seq<Seq<u8>> = Seq::empty();
        proof {
            assert(matched_lines(b, start, pattern@) =~= processed + matched_lines(b, start, pattern@));
        }
        while self.pos < self.bytes.len()
            invariant
                self.bytes@ == b,
                b == old(self).bytes_view(),
                start == old(self).pos_view(),
                start <= self.pos as int <= b.len(),
                regex_valid(pattern@),
                cp.pat() == pattern@,
                matched_lines(b, start, pattern@) == processed + matched_lines(b, self.pos as int, pattern@),
                out@.len() == processed.len(),
                forall|i: int| 0 <= i < processed.len() ==> utf8_of(#[trigger] processed[i]) is Some,
                forall|i: int| 0 <= i < processed.len() ==> (#[trigger] out@[i])@ == utf8_of(processed[i])->0,
            decreases b.len() - self.pos,
        {
            let line_start = self.pos;
            let end = find_line_end(&self.bytes, line_start);
            let line = copy_range(&self.bytes, line_start, end);
            let ghost lv = line@;
            let n = line.len();
            let content_len = if line[n - 1] == LINE_TERMINATOR { n - 1 } else { n };
            proof {
                assert(lv.subrange(0, content_len as int) =~= content_of(lv));
                lemma_matched_lines_step(b, line_start as int, pattern@);
            }
            let is_match = regex_match_within(&cp, &line, content_len);
            if is_match {
                match bytes_to_string(line) {
                    Some(s) => {
                        out.push(s);
                        proof {
                            assert(matched_lines(b, line_start as int, pattern@)
                                =~= seq![lv] + matched_lines(b, end as int, pattern@));
                            processed = processed.push(lv);
                            assert(matched_lines(b, start, pattern@)
                                =~= processed + matched_lines(b, end as int, pattern@));
                        }
                    },
                    None => {
                        self.pos = end;
                        proof {
                            let ml = matched_lines(b, start, pattern@);
                            assert(matched_lines(b, line_start as int, pattern@)
                                =~= seq![lv] + matched_lines(b, end as int, pattern@));
                            assert(ml =~= processed + (seq![lv] + matched_lines(b, end as int, pattern@)));
                            assert(ml[processed.len() as int] == lv);
                            assert(!all_lines_utf8(ml));
                        }
                        return Err(GrepError::EncodingError);
                    },
                }
            } else {
                proof {
                    assert(matched_lines(b, line_start as int, pattern@)
                        =~= matched_lines(b, end as int, pattern@));
                }
            }
            self.pos = end;
        }
        proof {
            lemma_matched_lines_at_end(b, self.pos as int, pattern@);
            assert(matched_lines(b, start, pattern@) =~= processed);
        }
        Ok(out)
    }
}

/// Unfolds one line of the scan: the matches of the region starting at a
/// line boundary are the matches of that line followed by the matches of the
/// region after it.
proof fn lemma_matched_lines_step(b: Seq<u8>, pos: int, p: Seq<char>)
    requires
        0 <= pos < b.len(),
    ensures
        ({
            let line = b.subrange(pos, line_end(b, pos));
            matched_lines(b, pos, p) == (if match_pred(p)(line) {
                seq![line]
            } else {
                Seq::<Seq<u8>>::empty()
            }) + matched_lines(b, line_end(b, pos), p)
        }),
{
    let pred = match_pred(p);
    let line = b.subrange(pos, line_end(b, pos));
    let rest = lines_from(b, line_end(b, pos));
    assert(lines_from(b, pos) == seq![line] + rest);
    Seq::filter_distributes_over_add(seq![line], rest, pred);
    reveal_with_fuel(Seq::filter, 3);
    assert(seq![line].drop_last() =~= Seq::<Seq<u8>>::empty());
    assert(seq![line].drop_last().filter(pred) =~= Seq::<Seq<u8>>::empty());
    assert(seq![line].last() == line);
    if pred(line) {
        assert(seq![line].filter(pred) =~= seq![line]);
    } else {
        assert(seq![line].filter(pred) =~= Seq::<Seq<u8>>::empty());
    }
}

/// A region that has been consumed holds no lines, so it matches nothing.
proof fn lemma_matched_lines_at_end(b: Seq<u8>, pos: int, p: Seq<char>)
    requires
        pos >= b.len(),
    ensures
        matched_lines(b, pos, p) == Seq::<Seq<u8>>::empty(),
{
    reveal(Seq::filter);
    assert(lines_from(b, pos) == Seq::<Seq<u8>>::empty());
}

} // verus!
