//! The history store: every submitted line, oldest first.
//!
//! The history file is plain text in UTF-8, one entry per line, each line
//! ended by a newline. Reading and writing the file is the caller's part:
//! this module turns the bytes of the file into entries, and an entry into
//! the bytes to append.

use vstd::prelude::*;
use vstd::slice::slice_subrange;
use vstd::string::*;
use vstd::utf8::*;

verus! {

/// The byte that ends a line.
pub const NEWLINE: u8 = 0x0A;

/// The byte that may stand before the newline and then belongs to the line's end.
pub const CARRIAGE_RETURN: u8 = 0x0D;

/// The place of the first newline in `bytes`, or `bytes.len()` where there is none.
pub open spec fn line_end(bytes: Seq<u8>) -> int
    decreases bytes.len(),
{
    if bytes.len() == 0 || bytes.first() == NEWLINE {
        0
    } else {
        1 + line_end(bytes.drop_first())
    }
}

/// `line` without a carriage return at its end.
pub open spec fn strip_carriage_return(line: Seq<u8>) -> Seq<u8> {
    if line.len() > 0 && line.last() == CARRIAGE_RETURN {
        line.drop_last()
    } else {
        line
    }
}

/// The first line of `bytes` without its end. Where no newline ends it, the
/// line is all of `bytes` as it stands.
pub open spec fn first_line(bytes: Seq<u8>) -> Seq<u8> {
    let end = line_end(bytes);
    if 0 <= end < bytes.len() {
        strip_carriage_return(bytes.take(end))
    } else {
        bytes
    }
}

/// What follows the first line of `bytes` and its newline.
pub open spec fn after_first_line(bytes: Seq<u8>) -> Seq<u8> {
    let end = line_end(bytes);
    if 0 <= end < bytes.len() {
        bytes.skip(end + 1)
    } else {
        Seq::empty()
    }
}

/// The entry that a line stands for: its text, or nothing where the line is
/// not UTF-8.
pub open spec fn decoded(line: Seq<u8>) -> Seq<Seq<char>> {
    if valid_utf8(line) {
        seq![decode_utf8(line)]
    } else {
        Seq::empty()
    }
}

/// The entries that a history file with these bytes holds, oldest first.
pub open spec fn entries(bytes: Seq<u8>) -> Seq<Seq<char>>
    decreases bytes.len(),
{
    if bytes.len() == 0 {
        Seq::empty()
    } else {
        decoded(first_line(bytes)) + entries(after_first_line(bytes))
    }
}

/// Whether `line` can be recorded as one entry: it holds no newline and does
/// not end with a carriage return.
pub open spec fn recordable(line: Seq<char>) -> bool {
    &&& forall|i: int| 0 <= i < line.len() ==> line[i] != '\n'
    &&& line.len() > 0 ==> line.last() != '\r'
}

/// The bytes that record `line` in the history file: its text and a newline.
pub open spec fn record_of(line: Seq<char>) -> Seq<u8> {
    encode_utf8(line).push(NEWLINE)
}

/// `line_end` finds a newline, the first one, exactly where there is one.
pub proof fn lemma_line_end(bytes: Seq<u8>)
    ensures
        0 <= line_end(bytes) <= bytes.len(),
        line_end(bytes) < bytes.len() ==> bytes[line_end(bytes)] == NEWLINE,
        forall|i: int| 0 <= i < line_end(bytes) ==> #[trigger] bytes[i] != NEWLINE,
    decreases bytes.len(),
{
    if bytes.len() == 0 || bytes.first() == NEWLINE {
    } else {
        let rest = bytes.drop_first();
        lemma_line_end(rest);
        assert forall|i: int| 0 <= i < line_end(bytes) implies #[trigger] bytes[i] != NEWLINE by {
            if i > 0 {
                assert(bytes[i] == rest[i - 1]);
            }
        }
    }
}

/// Where no newline stands before `k`, and one stands at `k` or `bytes` ends
/// there, the first line ends at `k`.
pub proof fn lemma_line_end_is(bytes: Seq<u8>, k: int)
    requires
        0 <= k <= bytes.len(),
        forall|i: int| 0 <= i < k ==> #[trigger] bytes[i] != NEWLINE,
        k < bytes.len() ==> bytes[k] == NEWLINE,
    ensures
        line_end(bytes) == k,
{
    lemma_line_end(bytes);
    let e = line_end(bytes);
    if e < k {
        assert(bytes[e] != NEWLINE);
    }
}

/// A file that is empty or ends with a newline can be read piece by piece:
/// what follows it starts a line of its own.
pub proof fn lemma_entries_concat(head: Seq<u8>, tail: Seq<u8>)
    requires
        head.len() == 0 || head.last() == NEWLINE,
    ensures
        entries(head + tail) == entries(head) + entries(tail),
    decreases head.len(),
{
    if head.len() == 0 {
        assert(head + tail =~= tail);
        assert(entries(head) + entries(tail) =~= entries(tail));
    } else {
        let all = head + tail;
        lemma_line_end(head);
        let end = line_end(head);
        if end >= head.len() {
            assert(head[head.len() - 1] != NEWLINE);
        }
        assert forall|i: int| 0 <= i < end implies #[trigger] all[i] != NEWLINE by {
            assert(all[i] == head[i]);
        }
        assert(all[end] == head[end]);
        lemma_line_end_is(all, end);
        assert(all.take(end) =~= head.take(end));
        let rest = head.skip(end + 1);
        assert(all.skip(end + 1) =~= rest + tail);
        if rest.len() > 0 {
            assert(rest.last() == head.last());
        }
        lemma_entries_concat(rest, tail);
        assert(entries(all) =~= entries(head) + entries(tail));
    }
}

proof fn lemma_encoded_bits(s: u32)
    by (bit_vector)
    ensures
        s <= 0x7F ==> ((s & 0x7F) as u8) as u32 == s,
        (0xC0u8 | ((s >> 6) & 0x1F) as u8) >= 0x80u8,
        (0xE0u8 | ((s >> 12) & 0x0F) as u8) >= 0x80u8,
        (0xF0u8 | ((s >> 18) & 0x7) as u8) >= 0x80u8,
        (0x80u8 | (s & 0x3F) as u8) >= 0x80u8,
        (0x80u8 | ((s >> 6) & 0x3F) as u8) >= 0x80u8,
        (0x80u8 | ((s >> 12) & 0x3F) as u8) >= 0x80u8,
{
}

/// A character below 128 is encoded as the one byte with its number; the
/// bytes of every other character are 128 or more.
pub proof fn lemma_encoded_character(c: char)
    ensures
        encode_scalar(c as u32).len() > 0,
        (c as u32) < 0x80 ==> encode_scalar(c as u32) == seq![(c as u32) as u8],
        (c as u32) >= 0x80 ==> forall|i: int|
            0 <= i < encode_scalar(c as u32).len() ==> #[trigger] encode_scalar(c as u32)[i]
                >= 0x80,
{
    lemma_encoded_bits(c as u32);
    if (c as u32) < 0x80 {
        assert(encode_scalar(c as u32) =~= seq![(c as u32) as u8]);
    }
}

/// Where a byte below 128 stands in the encoding of a text, the text holds the
/// character with that number; and where such a byte ends the encoding, that
/// character ends the text.
pub proof fn lemma_encoded_text(text: Seq<char>, byte: u8)
    requires
        byte < 0x80,
    ensures
        (exists|j: int| 0 <= j < encode_utf8(text).len() && encode_utf8(text)[j] == byte)
            ==> exists|i: int| 0 <= i < text.len() && text[i] as u32 == byte,
        encode_utf8(text).len() > 0 && encode_utf8(text).last() == byte ==> text.len() > 0
            && text.last() as u32 == byte,
        text.len() > 0 ==> encode_utf8(text).len() > 0,
    decreases text.len(),
{
    if text.len() > 0 {
        let rest = text.drop_first();
        let head = encode_scalar(text[0] as u32);
        let all = encode_utf8(text);
        lemma_encoded_character(text[0]);
        lemma_encoded_text(rest, byte);
        assert(all == head + encode_utf8(rest));
        if exists|j: int| 0 <= j < all.len() && all[j] == byte {
            let j = choose|j: int| 0 <= j < all.len() && all[j] == byte;
            if j < head.len() {
                assert(all[j] == head[j]);
                assert(text[0] as u32 == byte);
            } else {
                assert(all[j] == encode_utf8(rest)[j - head.len()]);
                let i = choose|i: int| 0 <= i < rest.len() && rest[i] as u32 == byte;
                assert(text[i + 1] == rest[i]);
            }
        }
        if all.last() == byte {
            if rest.len() == 0 {
                assert(encode_utf8(rest).len() == 0);
                assert(all.last() == head[head.len() - 1]);
                assert(text.last() == text[0]);
            } else {
                assert(all.last() == encode_utf8(rest).last());
                assert(text.last() == rest.last());
            }
        }
    }
}

/// The record of a line that holds no newline, and no carriage return at its
/// end, reads back as that line and nothing else.
pub proof fn lemma_record_reads_back(line: Seq<char>)
    requires
        recordable(line),
    ensures
        entries(record_of(line)) == seq![line],
{
    let text = encode_utf8(line);
    let bytes = record_of(line);
    lemma_encoded_text(line, NEWLINE);
    lemma_encoded_text(line, CARRIAGE_RETURN);
    assert forall|j: int| 0 <= j < text.len() implies #[trigger] bytes[j] != NEWLINE by {
        if text[j] == NEWLINE {
            let i = choose|i: int| 0 <= i < line.len() && line[i] as u32 == NEWLINE;
            char_u32_cast(line[i], 0x0Au32);
        }
    }
    lemma_line_end_is(bytes, text.len() as int);
    assert(bytes.take(text.len() as int) =~= text);
    if text.len() > 0 && text.last() == CARRIAGE_RETURN {
        char_u32_cast(line.last(), 0x0Du32);
    }
    assert(first_line(bytes) == text);
    assert(after_first_line(bytes) =~= Seq::<u8>::empty());
    encode_utf8_valid_utf8(line);
    encode_utf8_decode_utf8(line);
    assert(decoded(text) == seq![line]);
    assert(entries(after_first_line(bytes)) == Seq::<Seq<char>>::empty());
    assert(entries(bytes) == decoded(text) + entries(after_first_line(bytes)));
    assert(entries(bytes) =~= seq![line]);
}

/// Loading, appending one line, then loading again gives the entries of the
/// first load with the new line as one more entry at the end. This holds of a
/// file that is empty or ends with a newline, and of a line that holds no
/// newline and does not end with a carriage return.
pub proof fn lemma_append_then_load(file: Seq<u8>, line: Seq<char>)
    requires
        file.len() == 0 || file.last() == NEWLINE,
        recordable(line),
    ensures
        entries(file + record_of(line)) == entries(file).push(line),
{
    lemma_entries_concat(file, record_of(line));
    lemma_record_reads_back(line);
    assert(entries(file) + seq![line] =~= entries(file).push(line));
}

/// `file` with the records of `lines` appended one after the other.
pub open spec fn with_records(file: Seq<u8>, lines: Seq<Seq<char>>) -> Seq<u8>
    decreases lines.len(),
{
    if lines.len() == 0 {
        file
    } else {
        with_records(file, lines.drop_last()) + record_of(lines.last())
    }
}

/// The history in memory keeps step with the file: where each line that is
/// taken in is also appended to the file, loading the file gives what was
/// loaded at the start followed by those lines, in their order.
pub proof fn lemma_history_tracks_file(file: Seq<u8>, lines: Seq<Seq<char>>)
    requires
        file.len() == 0 || file.last() == NEWLINE,
        forall|i: int| 0 <= i < lines.len() ==> recordable(#[trigger] lines[i]),
    ensures
        entries(with_records(file, lines)) == entries(file) + lines,
        with_records(file, lines).len() == 0 || with_records(file, lines).last() == NEWLINE,
    decreases lines.len(),
{
    if lines.len() == 0 {
        assert(entries(file) + lines =~= entries(file));
    } else {
        let front = lines.drop_last();
        assert forall|i: int| 0 <= i < front.len() implies recordable(#[trigger] front[i]) by {
            assert(front[i] == lines[i]);
        }
        lemma_history_tracks_file(file, front);
        assert(recordable(lines[lines.len() - 1]));
        lemma_append_then_load(with_records(file, front), lines.last());
        assert((entries(file) + front).push(lines.last()) =~= entries(file) + lines);
    }
}

/// `core::str::from_utf8`: the text that `bytes` encode. It is there exactly
/// where `bytes` are well-formed UTF-8, and its encoding is `bytes` again.
#[verifier::external_body]
fn text_of(bytes: &[u8]) -> (r: Option<&str>)
    ensures
        r is Some <==> valid_utf8(bytes@),
        r matches Some(text) ==> text.spec_bytes() == bytes@,
{
    match core::str::from_utf8(bytes) {
        Ok(text) => Some(text),
        Err(_) => None,
    }
}

/// The bytes to append to the history file for `line`.
pub fn encode_entry(line: &str) -> (bytes: Vec<u8>)
    ensures
        bytes@ == record_of(line@),
{
    let mut bytes = line.as_bytes_vec();
    bytes.push(NEWLINE);
    bytes
}

/// The submitted lines in the order of their submission. Nothing is ever
/// removed, reordered or merged.
pub struct HistoryLog {
    entries: Vec<String>,
}

impl View for HistoryLog {
    type V = Seq<Seq<char>>;

    closed spec fn view(&self) -> Seq<Seq<char>> {
        self.entries.deep_view()
    }
}

impl HistoryLog {
    /// A history without entries, as for a file that is not there.
    pub fn new() -> (log: HistoryLog)
        ensures
            log@ == Seq::<Seq<char>>::empty(),
    {
        let log = HistoryLog { entries: Vec::new() };
        assert(log@ =~= Seq::<Seq<char>>::empty());
        log
    }

    /// The history that a file with these bytes holds. Lines that are not
    /// UTF-8 are passed over.
    pub fn load(bytes: &[u8]) -> (log: HistoryLog)
        ensures
            log@ == entries(bytes@),
    {
        let n: usize = bytes.len();
        let mut out: Vec<String> = Vec::new();
        let mut start: usize = 0;
        assert(bytes@.skip(0) =~= bytes@);
        assert(out.deep_view() + entries(bytes@) =~= entries(bytes@));
        while start < n
            invariant
                start <= n,
                n == bytes@.len(),
                out.deep_view() + entries(bytes@.skip(start as int)) == entries(bytes@),
            decreases n - start,
        {
            let ghost rest = bytes@.skip(start as int);
            let mut end: usize = start;
            while end < n && bytes[end] != NEWLINE
                invariant
                    start <= end <= n,
                    n == bytes@.len(),
                    forall|k: int| start <= k < end ==> #[trigger] bytes@[k] != NEWLINE,
                decreases n - end,
            {
                end += 1;
            }
            let mut stop: usize = end;
            if end < n && stop > start && bytes[stop - 1] == CARRIAGE_RETURN {
                stop -= 1;
            }
            let line = slice_subrange(bytes, start, stop);
            let next: usize = if end < n {
                end + 1
            } else {
                n
            };
            proof {
                assert forall|k: int| 0 <= k < end - start implies #[trigger] rest[k] != NEWLINE by {
                    assert(rest[k] == bytes@[start + k]);
                }
                lemma_line_end_is(rest, end - start);
                if end < n {
                    let whole = rest.take(end - start);
                    assert(whole =~= bytes@.subrange(start as int, end as int));
                    if whole.len() > 0 {
                        assert(whole.last() == bytes@[end - 1]);
                    }
                    assert(strip_carriage_return(whole) =~= line@);
                    assert(rest.skip(end - start + 1) =~= bytes@.skip(next as int));
                } else {
                    assert(rest =~= line@);
                    assert(bytes@.skip(next as int) =~= Seq::<u8>::empty());
                }
                assert(first_line(rest) == line@);
                assert(after_first_line(rest) == bytes@.skip(next as int));
            }
            let ghost before = out.deep_view();
            match text_of(line) {
                Some(text) => {
                    proof {
                        encode_utf8_decode_utf8(text@);
                    }
                    out.push(text.to_owned());
                    assert(out.deep_view() =~= before + decoded(line@));
                },
                None => {
                    assert(out.deep_view() =~= before + decoded(line@));
                },
            }
            assert(out.deep_view() + entries(bytes@.skip(next as int)) =~= before + entries(rest));
            start = next;
        }
        assert(bytes@.skip(n as int) =~= Seq::<u8>::empty());
        let log = HistoryLog { entries: out };
        assert(log@ =~= entries(bytes@));
        log
    }

    /// The number of entries.
    pub fn len(&self) -> (n: usize)
        ensures
            n == self@.len(),
    {
        self.entries.len()
    }

    /// The entries, oldest first.
    pub fn entries(&self) -> (all: &Vec<String>)
        ensures
            all.deep_view() == self@,
    {
        &self.entries
    }

    /// Takes `line` in as the newest entry and gives the bytes to append to
    /// the history file for it.
    pub fn record(&mut self, line: &str) -> (bytes: Vec<u8>)
        ensures
            final(self)@ == old(self)@.push(line@),
            bytes@ == record_of(line@),
    {
        let ghost before = self.entries.deep_view();
        self.entries.push(line.to_owned());
        assert(self.entries.deep_view() =~= before.push(line@));
        encode_entry(line)
    }
}

} // verus!
