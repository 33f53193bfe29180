//! The input: a header line, then one record per line.

use vstd::prelude::*;
use vstd::slice::slice_subrange;
use vstd::utf8::decode_utf8;
use vstd::utf8::encode_utf8;
use vstd::utf8::valid_utf8;
use crate::text::same_bytes;

verus! {

/// The line that every input starts with.
pub open spec fn header_line() -> Seq<char> {
    "type,client,tx,amount\n"@
}

/// The length of the first line, its line feed included: the bytes up to
/// and with the first line feed, or all of them where there is none.
pub open spec fn line_length(rest: Seq<u8>) -> int
    decreases rest.len(),
{
    if rest.len() == 0 {
        0
    } else if rest[0] == 10 {
        1
    } else {
        1 + line_length(rest.drop_first())
    }
}

/// The first line, its line feed included.
pub open spec fn first_line(rest: Seq<u8>) -> Seq<u8> {
    rest.take(line_length(rest))
}

/// What follows the first line.
pub open spec fn after_first_line(rest: Seq<u8>) -> Seq<u8> {
    rest.skip(line_length(rest))
}

/// Whether the first line is the header line, line feed and all.
pub open spec fn starts_with_header(data: Seq<u8>) -> bool {
    first_line(data) == encode_utf8(header_line())
}

/// The first line as text; `None` at the end of the input, and where the
/// line is not UTF-8.
pub open spec fn next_line(rest: Seq<u8>) -> Option<Seq<char>> {
    if rest.len() == 0 || !valid_utf8(first_line(rest)) {
        None
    } else {
        Some(decode_utf8(first_line(rest)))
    }
}

/// A line lies within the input, and only an empty input has an empty line.
pub proof fn lemma_line_is_within(rest: Seq<u8>)
    ensures
        0 <= line_length(rest) <= rest.len(),
        rest.len() > 0 ==> line_length(rest) > 0,
    decreases rest.len(),
{
    if rest.len() > 0 {
        lemma_line_is_within(rest.drop_first());
    }
}

/// A line ends with the first line feed, or with the input.
pub proof fn lemma_line_length(rest: Seq<u8>, n: int)
    requires
        0 <= n <= rest.len(),
        forall|k: int| 0 <= k < n - 1 ==> #[trigger] rest[k] != 10,
        n == rest.len() || (n > 0 && rest[n - 1] == 10),
        n > 0 || rest.len() == 0,
    ensures
        line_length(rest) == n,
    decreases n,
{
    if rest.len() > 0 && rest[0] != 10 {
        let tail = rest.drop_first();
        assert forall|k: int| 0 <= k < n - 2 implies #[trigger] tail[k] != 10 by {
            assert(tail[k] == rest[k + 1]);
        }
        if n >= 2 {
            assert(tail[n - 2] == rest[n - 1]);
        }
        lemma_line_length(tail, n - 1);
    }
}

/// The text of the bytes. This is `std::str::from_utf8` and a copy of its
/// result: text of exactly these bytes where they are UTF-8, `None` where
/// they are not.
#[verifier::external_body]
fn text_of(bytes: &[u8]) -> (text: Option<String>)
    ensures
        match text {
            Some(text) => valid_utf8(bytes@) && text@ == decode_utf8(bytes@),
            None => !valid_utf8(bytes@),
        },
{
    match std::str::from_utf8(bytes) {
        Ok(text) => Some(String::from(text)),
        Err(_) => None,
    }
}

/// Where the line that starts at `from` ends: behind its line feed, or at
/// the end of the data.
fn line_end(data: &[u8], from: usize) -> (end: usize)
    requires
        from <= data.len(),
    ensures
        end == from + line_length(data@.skip(from as int)),
        from <= end <= data.len(),
        from < data.len() ==> from < end,
{
    let ghost rest = data@.skip(from as int);
    let mut end: usize = from;
    while end < data.len()
        invariant
            from <= end <= data.len(),
            rest == data@.skip(from as int),
            forall|k: int| 0 <= k < end - from ==> #[trigger] rest[k] != 10,
        decreases data.len() - end,
    {
        assert(rest[end - from] == data[end as int]);
        if data[end] == 10 {
            proof {
                lemma_line_length(rest, end - from + 1);
            }
            return end + 1;
        }
        end += 1;
    }
    proof {
        lemma_line_length(rest, end - from);
    }
    end
}

/// The input of a run, walked line by line. Its value is what is left of
/// it: the bytes of the lines not yet taken.
pub struct Input {
    data: Vec<u8>,
    position: usize,
}

impl View for Input {
    type V = Seq<u8>;

    closed spec fn view(&self) -> Seq<u8> {
        self.data@.skip(self.position as int)
    }
}

impl Input {
    #[verifier::type_invariant]
    spec fn position_is_within(self) -> bool {
        self.position <= self.data.len()
    }

    /// Whether the data starts with the header line.
    pub fn has_header(data: &Vec<u8>) -> (found: bool)
        ensures
            found == starts_with_header(data@),
    {
        let end = line_end(data.as_slice(), 0);
        assert(data@.skip(0) == data@);
        same_bytes(slice_subrange(data.as_slice(), 0, end), "type,client,tx,amount\n".as_bytes())
    }

    /// The input that holds the data, with the header line taken.
    pub fn from(data: Vec<u8>) -> (input: Input)
        requires
            starts_with_header(data@),
        ensures
            input@ == after_first_line(data@),
    {
        let position = line_end(data.as_slice(), 0);
        assert(data@.skip(0) == data@);
        Input { data, position }
    }

    /// Takes the next line, line feed and all. `None` at the end of the
    /// input; `None` too for a line that is not UTF-8, which is taken all the
    /// same.
    pub fn next(&mut self) -> (line: Option<String>)
        ensures
            final(self)@ == after_first_line(old(self)@),
            match line {
                Some(text) => next_line(old(self)@) == Some(text@),
                None => next_line(old(self)@) is None,
            },
    {
        proof {
            use_type_invariant(&*self);
        }
        let start = self.position;
        let end = line_end(self.data.as_slice(), start);
        self.position = end;
        assert(self@ == old(self)@.skip(end - start));
        if start == end {
            return None;
        }
        assert(first_line(old(self)@) == self.data@.subrange(start as int, end as int));
        text_of(slice_subrange(self.data.as_slice(), start, end))
    }
}

} // verus!
