//! The directive scanner: reads the raw text of one comment token and
//! yields, left to right, the directive operators embedded in it.
//!
//! A directive begins where the scanning position is immediately followed
//! by two delimiter bytes (`%%`); its payload runs to the next line feed,
//! or to the end of the text. A payload containing three consecutive
//! dashes is a separator; any other payload is a command, preserved
//! verbatim.

use vstd::prelude::*;
use vstd::string::{StrSliceExecFns, StringSliceAdditionalSpecFns};
use vstd::utf8::{decode_utf8, valid_utf8};

use crate::error::ParserError;
use crate::text::bytes_to_string;

verus! {

/// The byte that, doubled, opens a directive: `%`.
pub const COMMAND_BEGIN_DELIMITER_CHAR: u8 = 37;

/// The byte that ends a payload: a line feed.
pub const NEW_LINE: u8 = 10;

/// One directive extracted from a comment.
#[derive(Debug, PartialEq, Eq)]
pub enum CommentOperator {
    /// A kernel-level command, carrying its payload text verbatim.
    Command(String),
    /// A bare cell boundary; separators carry no payload.
    Separator,
}

/// Whether three consecutive dashes occur anywhere in the text. A payload
/// for which this holds is a separator, not a command.
pub open spec fn has_triple_dash(s: Seq<char>) -> bool {
    exists|i: int|
        0 <= i && i + 2 < s.len() && #[trigger] s[i] == '-' && s[i + 1] == '-' && s[i + 2] == '-'
}

impl CommentOperator {
    /// Classifies a scanned payload: a separator if it contains the
    /// reserved dash marker, otherwise a command carrying the payload
    /// unmodified (no trimming).
    pub fn from_string(s: String) -> (r: CommentOperator)
        ensures
            has_triple_dash(s@) ==> r == CommentOperator::Separator,
            !has_triple_dash(s@) ==> r == CommentOperator::Command(s),
    {
        let text = s.as_str();
        let n = text.unicode_len();
        let mut i: usize = 0;
        loop
            invariant
                text@ == s@,
                n == s@.len(),
                0 <= i <= n,
                forall|j: int|
                    0 <= j && j < i && j + 2 < s@.len() ==> !(#[trigger] s@[j] == '-' && s@[j + 1]
                        == '-' && s@[j + 2] == '-'),
            decreases n - i,
        {
            if i >= n {
                assert(!has_triple_dash(s@));
                return CommentOperator::Command(s);
            }
            if n - i < 3 {
                assert(!has_triple_dash(s@));
                return CommentOperator::Command(s);
            }
            if text.get_char(i) == '-' && text.get_char(i + 1) == '-' && text.get_char(i + 2)
                == '-' {
                assert(has_triple_dash(s@));
                return CommentOperator::Separator;
            }
            i = i + 1;
        }
    }
}

/// Where the payload that starts at `i` ends: the index of the first line
/// feed at or after `i`, or the end of the text if none remains.
pub open spec fn payload_end(s: Seq<u8>, i: int) -> int
    decreases s.len() - i,
{
    if i >= s.len() {
        s.len() as int
    } else if 0 <= i && s[i] == NEW_LINE {
        i
    } else {
        payload_end(s, i + 1)
    }
}

/// `payload_end` stays between its starting point and the end of the text.
pub proof fn lemma_payload_end_bounds(s: Seq<u8>, i: int)
    requires
        i <= s.len(),
    ensures
        i <= payload_end(s, i) <= s.len(),
    decreases s.len() - i,
{
    if i < s.len() && !(0 <= i && s[i] == NEW_LINE) {
        lemma_payload_end_bounds(s, i + 1);
    }
}

/// `payload_end` stops only on a line feed, and skips no line feed.
pub proof fn lemma_payload_end(s: Seq<u8>, i: int)
    requires
        0 <= i <= s.len(),
    ensures
        i <= payload_end(s, i) <= s.len(),
        payload_end(s, i) < s.len() ==> s[payload_end(s, i)] == NEW_LINE,
        forall|j: int| i <= j < payload_end(s, i) ==> s[j] != NEW_LINE,
    decreases s.len() - i,
{
    if i < s.len() && s[i] != NEW_LINE {
        lemma_payload_end(s, i + 1);
    }
}

/// The raw payloads of all directives found from position `i` to the end
/// of the text, in scanning order.
pub open spec fn scan_payloads(s: Seq<u8>, i: int) -> Seq<Seq<u8>>
    decreases s.len() - i,
    via scan_payloads_decreases
{
    if i + 2 >= s.len() {
        Seq::empty()
    } else if s[i + 1] == COMMAND_BEGIN_DELIMITER_CHAR && s[i + 2]
        == COMMAND_BEGIN_DELIMITER_CHAR {
        let pe = payload_end(s, i + 3);
        let cont = if pe < s.len() {
            pe + 1
        } else {
            pe
        };
        seq![s.subrange(i + 3, pe)] + scan_payloads(s, cont)
    } else {
        scan_payloads(s, i + 1)
    }
}

#[via_fn]
proof fn scan_payloads_decreases(s: Seq<u8>, i: int) {
    if i + 2 < s.len() && s[i + 1] == COMMAND_BEGIN_DELIMITER_CHAR && s[i + 2]
        == COMMAND_BEGIN_DELIMITER_CHAR {
        lemma_payload_end_bounds(s, i + 3);
    }
}

/// No doubled delimiter anywhere means no directives: the scan yields
/// nothing from any starting point.
pub proof fn lemma_no_delimiter_no_payloads(s: Seq<u8>, i: int)
    requires
        forall|k: int|
            0 <= k && k + 1 < s.len() ==> !(#[trigger] s[k] == COMMAND_BEGIN_DELIMITER_CHAR && s[k
                + 1] == COMMAND_BEGIN_DELIMITER_CHAR),
        0 <= i,
    ensures
        scan_payloads(s, i).len() == 0,
    decreases s.len() - i,
{
    if i + 2 < s.len() {
        lemma_no_delimiter_no_payloads(s, i + 1);
    }
}

/// Scans one comment's text for directives. The cursor is an explicit
/// byte offset into an immutable buffer, so independent scans never
/// interfere; repeated `next` calls continue from where the last left off.
pub struct CommentInterpreter {
    /// The comment text being scanned, as bytes.
    pub comment: Vec<u8>,
    /// The scanning position, in bytes from the start.
    pub current_index: usize,
}

impl CommentInterpreter {
    /// A fresh scanner over a comment's text, cursor at the start.
    pub fn new(comment: &str) -> (r: CommentInterpreter)
        ensures
            r.comment@ == comment.spec_bytes(),
            r.current_index == 0,
    {
        CommentInterpreter { comment: comment.as_bytes_vec(), current_index: 0 }
    }

    /// A fresh scanner over a raw byte span, cursor at the start.
    pub fn from_bytes(comment: Vec<u8>) -> (r: CommentInterpreter)
        ensures
            r.comment@ == comment@,
            r.current_index == 0,
    {
        CommentInterpreter { comment, current_index: 0 }
    }

    /// The byte `n` places past the cursor, if the text reaches that far.
    fn peek(&self, n: usize) -> (r: Option<u8>)
        ensures
            self.current_index + n < self.comment@.len() ==> r == Some(
                self.comment@[self.current_index + n],
            ),
            self.current_index + n >= self.comment@.len() ==> r is None,
    {
        let len = self.comment.len();
        if self.current_index < len && n < len - self.current_index {
            Some(self.comment[self.current_index + n])
        } else {
            None
        }
    }

    /// Advances the cursor by `n` bytes.
    fn shift(&mut self, n: usize)
        requires
            old(self).current_index + n <= usize::MAX,
        ensures
            final(self).comment@ == old(self).comment@,
            final(self).current_index == old(self).current_index + n,
    {
        self.current_index = self.current_index + n;
    }

    /// Whether the cursor has passed the last byte.
    fn at_end(&self) -> (r: bool)
        ensures
            r == (self.current_index >= self.comment@.len()),
    {
        self.current_index >= self.comment.len()
    }

    /// Consumes bytes up to (and not including) the next line feed, or to
    /// the end of the text, and returns them; the line feed itself is
    /// skipped, not re-scanned. At the end of the text there is nothing
    /// left to consume and the result is `None`.
    pub fn chomp_until_line_end(&mut self) -> (r: Option<Vec<u8>>)
        ensures
            final(self).comment@ == old(self).comment@,
            old(self).current_index >= old(self).comment@.len() ==> r is None && *final(self)
                == *old(self),
            old(self).current_index < old(self).comment@.len() ==> {
                let pe = payload_end(old(self).comment@, old(self).current_index as int);
                &&& r matches Some(v) && v@ == old(self).comment@.subrange(
                    old(self).current_index as int,
                    pe,
                )
                &&& final(self).current_index == if pe < old(self).comment@.len() {
                    pe + 1
                } else {
                    pe
                }
            },
    {
        if self.at_end() {
            return None;
        }
        let ghost s = self.comment@;
        let start_index: usize = self.current_index;
        while self.current_index < self.comment.len() && self.comment[self.current_index]
            != NEW_LINE
            invariant
                self.comment@ == s,
                start_index <= self.current_index <= s.len(),
                forall|j: int| start_index <= j < self.current_index ==> s[j] != NEW_LINE,
            decreases s.len() - self.current_index,
        {
            self.current_index = self.current_index + 1;
        }
        proof {
            lemma_payload_end_at(s, start_index as int, self.current_index as int);
        }
        let mut result: Vec<u8> = Vec::new();
        let mut k: usize = start_index;
        while k < self.current_index
            invariant
                self.comment@ == s,
                start_index <= k <= self.current_index <= s.len(),
                result@ == s.subrange(start_index as int, k as int),
            decreases self.current_index - k,
        {
            result.push(self.comment[k]);
            assert(result@ =~= s.subrange(start_index as int, k + 1));
            k = k + 1;
        }
        if self.current_index < self.comment.len() {
            self.shift(1);
        }
        Some(result)
    }

    /// The next directive found at or after the cursor, or `None` once the
    /// text is exhausted; exhaustion is terminal, never an error. Decoding
    /// a payload that is not valid text fails with a decoding error. A
    /// payload with the reserved dash marker comes back as a separator,
    /// any other payload as a command carrying its text verbatim — even
    /// the empty payload of a delimiter pair at the very end of the text.
    #[verifier::loop_isolation(false)]
    pub fn next(&mut self) -> (r: Result<Option<CommentOperator>, ParserError>)
        ensures
            final(self).comment@ == old(self).comment@,
            ({
                let s = old(self).comment@;
                let ps = scan_payloads(s, old(self).current_index as int);
                &&& ps.len() == 0 ==> r == Ok::<Option<CommentOperator>, ParserError>(None)
                    && scan_payloads(s, final(self).current_index as int).len() == 0
                &&& ps.len() > 0 ==> {
                    &&& scan_payloads(s, final(self).current_index as int) == ps.drop_first()
                    &&& !valid_utf8(ps[0]) ==> r == Err::<Option<CommentOperator>, ParserError>(
                        ParserError::DecodingError,
                    )
                    &&& valid_utf8(ps[0]) && has_triple_dash(decode_utf8(ps[0])) ==> r == Ok::<
                        Option<CommentOperator>,
                        ParserError,
                    >(Some(CommentOperator::Separator))
                    &&& valid_utf8(ps[0]) && !has_triple_dash(decode_utf8(ps[0])) ==> {
                        &&& r matches Ok(o)
                        &&& o matches Some(c)
                        &&& c matches CommentOperator::Command(cmd)
                        &&& cmd@ == decode_utf8(ps[0])
                    }
                }
            }),
    {
        let ghost s = self.comment@;
        let ghost ps = scan_payloads(s, self.current_index as int);
        while self.current_index < self.comment.len() && self.current_index + 1
            < self.comment.len()
            invariant
                self.comment@ == s,
                scan_payloads(s, self.current_index as int) == ps,
            decreases s.len() - self.current_index,
        {
            let doubled = match (self.peek(1), self.peek(2)) {
                (
                    Some(COMMAND_BEGIN_DELIMITER_CHAR),
                    Some(COMMAND_BEGIN_DELIMITER_CHAR),
                ) => true,
                _ => false,
            };
            if doubled {
                let ghost at = self.current_index as int;
                proof {
                    lemma_payload_end(s, at + 3);
                }
                self.shift(3);
                let payload: Vec<u8> = match self.chomp_until_line_end() {
                    Some(v) => v,
                    None => Vec::new(),
                };
                proof {
                    assert(payload@ =~= ps[0]);
                    assert(scan_payloads(s, self.current_index as int) =~= ps.drop_first());
                }
                let text = match bytes_to_string(&payload) {
                    Ok(t) => t,
                    Err(e) => {
                        return Err(e);
                    },
                };
                return Ok(Some(CommentOperator::from_string(text)));
            }
            self.current_index = self.current_index + 1;
        }
        Ok(None)
    }
}

/// Pins `payload_end` to the position where the byte-by-byte walk
/// stopped: no line feed was passed over, and the stop is either a line
/// feed or the end of the text.
proof fn lemma_payload_end_at(s: Seq<u8>, start: int, stop: int)
    requires
        0 <= start <= stop <= s.len(),
        forall|j: int| start <= j < stop ==> s[j] != NEW_LINE,
        stop < s.len() ==> s[stop] == NEW_LINE,
    ensures
        payload_end(s, start) == stop,
    decreases stop - start,
{
    if start < stop {
        lemma_payload_end_at(s, start + 1, stop);
    }
}

} // verus!
