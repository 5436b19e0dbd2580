//! The byte layout of a log entry, on disk and between nodes.
//!
//! An entry is a message header of four 2-byte integers (block length, template,
//! schema and version), a block of six 8-byte integers (timestamp, term, index,
//! previous index, previous term and message id), and a group of key-value
//! writes. The group is headed by two 2-byte integers (block length and count);
//! each write is its key and its value, each a 4-byte length and as many bytes.
//! Every integer is written lowest byte first, and text is written as UTF-8.

use crate::service_utils::little_endian;
use std::sync::Arc;
use vstd::prelude::*;
use vstd::slice::slice_subrange;

verus! {

/// One key-value write of a client.
#[derive(Clone, Debug, PartialEq)]
pub struct RemotePutRequest {
    pub id: String,
    pub payload: String,
    pub node_id: u32,
}

/// What a [`RemotePutRequest`] holds.
pub struct PutRequestView {
    pub id: Seq<char>,
    pub payload: Seq<char>,
    pub node_id: u32,
}

impl View for RemotePutRequest {
    type V = PutRequestView;

    open spec fn view(&self) -> PutRequestView {
        PutRequestView { id: self.id@, payload: self.payload@, node_id: self.node_id }
    }
}

/// One entry of the replicated log.
#[derive(Clone, Debug, PartialEq)]
pub struct SerializationData {
    pub index: u64,
    pub term: u64,
    pub timestamp: u64,
    pub prev_index: u64,
    pub prev_term: u64,
    pub message_id: u64,
    pub requests: Vec<RemotePutRequest>,
}

/// What a [`SerializationData`] holds.
#[verifier::ext_equal]
pub struct EntryView {
    pub index: u64,
    pub term: u64,
    pub timestamp: u64,
    pub prev_index: u64,
    pub prev_term: u64,
    pub message_id: u64,
    pub requests: Seq<PutRequestView>,
}

/// The writes that a vector of requests stands for, in order.
pub open spec fn requests_view(requests: Seq<RemotePutRequest>) -> Seq<PutRequestView> {
    requests.map_values(|r: RemotePutRequest| r@)
}

impl View for SerializationData {
    type V = EntryView;

    open spec fn view(&self) -> EntryView {
        EntryView {
            index: self.index,
            term: self.term,
            timestamp: self.timestamp,
            prev_index: self.prev_index,
            prev_term: self.prev_term,
            message_id: self.message_id,
            requests: requests_view(self.requests@),
        }
    }
}

impl SerializationData {
    /// What of the entry reaches the disk and the other nodes.
    pub fn as_bytes(&self) -> (bytes: Vec<u8>)
        requires
            self@.is_storable(),
        ensures
            bytes@ == self@.encoded(),
    {
        let mut bytes: Vec<u8> = Vec::new();
        little_endian::push_bytes(&mut bytes, BLOCK_LENGTH, 2);
        little_endian::push_bytes(&mut bytes, TEMPLATE_ID, 2);
        little_endian::push_bytes(&mut bytes, SCHEMA_ID, 2);
        little_endian::push_bytes(&mut bytes, SCHEMA_VERSION, 2);
        little_endian::push_bytes(&mut bytes, self.timestamp, 8);
        little_endian::push_bytes(&mut bytes, self.term, 8);
        little_endian::push_bytes(&mut bytes, self.index, 8);
        little_endian::push_bytes(&mut bytes, self.prev_index, 8);
        little_endian::push_bytes(&mut bytes, self.prev_term, 8);
        little_endian::push_bytes(&mut bytes, self.message_id, 8);
        little_endian::push_bytes(&mut bytes, GROUP_BLOCK_LENGTH, 2);
        let count: usize = self.requests.len();
        little_endian::push_bytes(&mut bytes, count as u64, 2);
        let ghost head = bytes@;
        let ghost requests = self@.requests;
        let mut done: usize = 0;
        assert(head + encoded_requests(requests.take(0)) =~= head);
        while done < count
            invariant
                count == self.requests.len() == requests.len(),
                requests == self@.requests,
                self@.is_storable(),
                done <= count,
                bytes@ == head + encoded_requests(requests.take(done as int)),
            decreases count - done,
        {
            let request = &self.requests[done];
            let ghost before = bytes@;
            assert(requests[done as int] == request@);
            push_text(&mut bytes, request.id.as_str());
            push_text(&mut bytes, request.payload.as_str());
            proof {
                let longer = requests.take(done + 1);
                assert(longer.drop_last() =~= requests.take(done as int));
                assert(longer.last() == request@);
                assert(bytes@ =~= head + encoded_requests(longer));
            }
            done = done + 1;
        }
        proof {
            assert(requests.take(count as int) =~= requests);
            assert(bytes@ =~= self@.encoded());
        }
        bytes
    }
}

/// Whether the layout has room for some writes.
pub open spec fn are_storable(requests: Seq<PutRequestView>) -> bool {
    &&& requests.len() <= u16::MAX
    &&& forall|i: int| 0 <= i < requests.len() ==> (#[trigger] requests[i]).is_storable()
}

/// Whether the layout has room for some writes.
pub fn requests_can_be_stored(requests: &Vec<RemotePutRequest>) -> (ok: bool)
    ensures
        ok == are_storable(requests_view(requests@)),
{
    let ghost views = requests_view(requests@);
    let count: usize = requests.len();
    if count > u16::MAX as usize {
        return false;
    }
    let mut done: usize = 0;
    while done < count
        invariant
            count == requests.len() <= u16::MAX,
            views == requests_view(requests@),
            done <= count,
            forall|i: int| 0 <= i < done ==> (#[trigger] views[i]).is_storable(),
        decreases count - done,
    {
        let id: &[u8] = requests[done].id.as_str().as_bytes();
        let payload: &[u8] = requests[done].payload.as_str().as_bytes();
        assert(views[done as int] == requests@[done as int]@);
        if id.len() as u64 > u32::MAX as u64 || payload.len() as u64 > u32::MAX as u64 {
            assert(!views[done as int].is_storable());
            return false;
        }
        done = done + 1;
    }
    true
}

impl SerializationData {
    /// Whether the layout has room for the entry.
    pub fn can_be_stored(&self) -> (ok: bool)
        ensures
            ok == self@.is_storable(),
    {
        requests_can_be_stored(&self.requests)
    }
}

/// The bytes of an entry.
#[derive(Clone, Debug)]
pub struct SerializedData {
    pub data: Vec<u8>,
}

/// Length of the block of an entry, in bytes.
pub const BLOCK_LENGTH: u64 = 48;

/// Names the log entry among the messages of the schema.
pub const TEMPLATE_ID: u64 = 1;

pub const SCHEMA_ID: u64 = 1;

pub const SCHEMA_VERSION: u64 = 0;

/// Length of the fixed part of one write, in bytes.
pub const GROUP_BLOCK_LENGTH: u64 = 0;

/// Length of everything before the first write of an entry, in bytes.
pub const FIXED_LENGTH: usize = 60;

/// A piece of text, behind its length.
pub open spec fn encoded_text(text: Seq<char>) -> Seq<u8> {
    let bytes = vstd::utf8::encode_utf8(text);
    little_endian::to_bytes(bytes.len(), 4) + bytes
}

/// One write after the other.
pub open spec fn encoded_requests(requests: Seq<PutRequestView>) -> Seq<u8>
    decreases requests.len(),
{
    if requests.len() == 0 {
        Seq::empty()
    } else {
        encoded_requests(requests.drop_last()) + encoded_text(requests.last().id) + encoded_text(
            requests.last().payload,
        )
    }
}

/// The header of every entry.
pub open spec fn header() -> Seq<u8> {
    little_endian::to_bytes(BLOCK_LENGTH as nat, 2) + little_endian::to_bytes(
        TEMPLATE_ID as nat,
        2,
    ) + little_endian::to_bytes(SCHEMA_ID as nat, 2) + little_endian::to_bytes(
        SCHEMA_VERSION as nat,
        2,
    )
}

impl PutRequestView {
    /// Whether the layout has room for the lengths of the key and the value.
    pub open spec fn is_storable(self) -> bool {
        &&& vstd::utf8::encode_utf8(self.id).len() <= u32::MAX
        &&& vstd::utf8::encode_utf8(self.payload).len() <= u32::MAX
    }

    /// What of a write is stored: all but the node that it came from.
    pub open spec fn stored(self) -> PutRequestView {
        PutRequestView { node_id: 0, ..self }
    }
}

impl EntryView {
    /// Whether the layout has room for the count of the writes and for their lengths.
    pub open spec fn is_storable(self) -> bool {
        are_storable(self.requests)
    }

    /// What of an entry is stored.
    pub open spec fn stored(self) -> EntryView {
        EntryView { requests: self.requests.map_values(|r: PutRequestView| r.stored()), ..self }
    }

    /// The block of an entry.
    pub open spec fn block(self) -> Seq<u8> {
        little_endian::to_bytes(self.timestamp as nat, 8) + little_endian::to_bytes(
            self.term as nat,
            8,
        ) + little_endian::to_bytes(self.index as nat, 8) + little_endian::to_bytes(
            self.prev_index as nat,
            8,
        ) + little_endian::to_bytes(self.prev_term as nat, 8) + little_endian::to_bytes(
            self.message_id as nat,
            8,
        )
    }

    /// The bytes of an entry.
    pub open spec fn encoded(self) -> Seq<u8> {
        header() + self.block() + little_endian::to_bytes(GROUP_BLOCK_LENGTH as nat, 2)
            + little_endian::to_bytes(self.requests.len(), 2) + encoded_requests(self.requests)
    }
}

/// Appends a piece of text, behind its length.
fn push_text(out: &mut Vec<u8>, text: &str)
    requires
        vstd::utf8::encode_utf8(text@).len() <= u32::MAX,
    ensures
        final(out)@ == old(out)@ + encoded_text(text@),
{
    let bytes: &[u8] = text.as_bytes();
    let len: usize = bytes.len();
    little_endian::push_bytes(out, len as u64, 4);
    let ghost head = out@;
    let mut done: usize = 0;
    assert(head + bytes@.take(0) =~= head);
    while done < len
        invariant
            len == bytes@.len(),
            done <= len,
            out@ == head + bytes@.take(done as int),
        decreases len - done,
    {
        out.push(bytes[done]);
        assert(out@ =~= head + bytes@.take(done + 1));
        done = done + 1;
    }
    assert(bytes@.take(len as int) =~= bytes@);
    assert(out@ =~= old(out)@ + encoded_text(text@));
}

/// The text that `String::from_utf8_lossy` makes of bytes that are not UTF-8.
pub uninterp spec fn repaired_text(bytes: Seq<u8>) -> Seq<char>;

/// The text that some stored bytes stand for.
pub open spec fn text_of(bytes: Seq<u8>) -> Seq<char> {
    if vstd::utf8::valid_utf8(bytes) {
        vstd::utf8::decode_utf8(bytes)
    } else {
        repaired_text(bytes)
    }
}

/// Calls `String::from_utf8_lossy`: UTF-8 is decoded as it stands, and of other
/// bytes the call makes a text that only they decide.
#[verifier::external_body]
fn lossy_text(bytes: &[u8]) -> (text: String)
    ensures
        text@ == if vstd::utf8::valid_utf8(bytes@) {
            vstd::utf8::decode_utf8(bytes@)
        } else {
            repaired_text(bytes@)
        },
{
    String::from_utf8_lossy(bytes).to_string()
}

/// The text that starts at `start`, and where it ends. `None` if the bytes end before it does.
pub open spec fn parsed_text(data: Seq<u8>, start: int) -> Option<(int, Seq<char>)> {
    if start + 4 > data.len() {
        None
    } else {
        let end = start + 4 + little_endian::from_bytes(data.subrange(start, start + 4));
        if end > data.len() {
            None
        } else {
            Some((end, text_of(data.subrange(start + 4, end))))
        }
    }
}

/// The write that starts at `start`, and where it ends.
pub open spec fn parsed_request(data: Seq<u8>, start: int) -> Option<(int, PutRequestView)> {
    match parsed_text(data, start) {
        None => None,
        Some((middle, id)) => match parsed_text(data, middle) {
            None => None,
            Some((end, payload)) => Some((end, PutRequestView { id, payload, node_id: 0 })),
        },
    }
}

/// The `count` writes that start at `start`, and where they end.
pub open spec fn parsed_requests(data: Seq<u8>, start: int, count: nat) -> Option<
    (int, Seq<PutRequestView>),
>
    decreases count,
{
    if count == 0 {
        Some((start, Seq::empty()))
    } else {
        match parsed_requests(data, start, (count - 1) as nat) {
            None => None,
            Some((middle, requests)) => match parsed_request(data, middle) {
                None => None,
                Some((end, request)) => Some((end, requests.push(request))),
            },
        }
    }
}

/// The 8-byte integer at `start`.
pub open spec fn parsed_u64(data: Seq<u8>, start: int) -> u64 {
    little_endian::from_bytes(data.subrange(start, start + 8)) as u64
}

/// The entry that starts at `start`, and where it ends. `None` if no entry starts there.
pub open spec fn parsed_entry(data: Seq<u8>, start: int) -> Option<(int, EntryView)> {
    if start + FIXED_LENGTH > data.len() {
        None
    } else if data.subrange(start, start + 8) != header() {
        None
    } else if data.subrange(start + 56, start + 58) != little_endian::to_bytes(
        GROUP_BLOCK_LENGTH as nat,
        2,
    ) {
        None
    } else {
        match parsed_requests(
            data,
            start + FIXED_LENGTH,
            little_endian::from_bytes(data.subrange(start + 58, start + 60)),
        ) {
            None => None,
            Some((end, requests)) => Some(
                (
                    end,
                    EntryView {
                        timestamp: parsed_u64(data, start + 8),
                        term: parsed_u64(data, start + 16),
                        index: parsed_u64(data, start + 24),
                        prev_index: parsed_u64(data, start + 32),
                        prev_term: parsed_u64(data, start + 40),
                        message_id: parsed_u64(data, start + 48),
                        requests,
                    },
                ),
            ),
        }
    }
}

/// The entries that follow one another from `start` to the end of the data.
/// `None` if anything else stands there.
pub open spec fn parsed_entries(data: Seq<u8>, start: int) -> Option<Seq<EntryView>>
    decreases data.len() - start,
    when 0 <= start
{
    if start >= data.len() {
        Some(Seq::empty())
    } else {
        match parsed_entry(data, start) {
            None => None,
            Some((end, entry)) => {
                if start < end {
                    match parsed_entries(data, end) {
                        None => None,
                        Some(rest) => Some(seq![entry] + rest),
                    }
                } else {
                    None
                }
            },
        }
    }
}

/// What a reader says of bytes that are no entry.
pub open spec fn malformed_entry() -> Seq<char> {
    "Malformed log entry"@
}

/// Writes of an entry end behind where they start, and within the data.
proof fn lemma_parsed_requests_end(data: Seq<u8>, start: int, count: nat)
    requires
        start <= data.len(),
    ensures
        parsed_requests(data, start, count) matches Some((end, requests)) ==> start <= end
            <= data.len() && requests.len() == count,
    decreases count,
{
    if count > 0 {
        lemma_parsed_requests_end(data, start, (count - 1) as nat);
    }
}

/// If not even the first `fewer` writes can be read, the first `more` cannot.
proof fn lemma_parsed_requests_fails(data: Seq<u8>, start: int, fewer: nat, more: nat)
    requires
        fewer <= more,
        parsed_requests(data, start, fewer) is None,
    ensures
        parsed_requests(data, start, more) is None,
    decreases more,
{
    if fewer < more {
        lemma_parsed_requests_fails(data, start, fewer, (more - 1) as nat);
    }
}

/// Reads the text that starts at `start`.
fn read_text(data: &[u8], start: usize) -> (text: Option<(usize, String)>)
    requires
        start <= data@.len(),
    ensures
        match text {
            Some((end, text)) => parsed_text(data@, start as int) == Some((end as int, text@)),
            None => parsed_text(data@, start as int) is None,
        },
{
    if data.len() - start < 4 {
        return None;
    }
    let len: u64 = little_endian::read_bytes(data, start, 4);
    let first: usize = start + 4;
    if ((data.len() - first) as u64) < len {
        return None;
    }
    let end: usize = first + len as usize;
    Some((end, lossy_text(slice_subrange(data, first, end))))
}

/// Whether the bytes of `expected` stand at `start`.
fn holds(data: &[u8], start: usize, expected: &Vec<u8>) -> (held: bool)
    requires
        start + expected@.len() <= data@.len(),
    ensures
        held == (data@.subrange(start as int, start + expected@.len()) == expected@),
{
    let end: usize = data.len();
    let mut done: usize = 0;
    while done < expected.len()
        invariant
            start + expected@.len() <= end == data@.len(),
            done <= expected@.len(),
            forall|i: int| 0 <= i < done ==> data@[start + i] == expected@[i],
        decreases expected@.len() - done,
    {
        if data[start + done] != expected[done] {
            assert(data@.subrange(start as int, start + expected@.len())[done as int]
                != expected@[done as int]);
            return false;
        }
        done = done + 1;
    }
    assert(data@.subrange(start as int, start + expected@.len()) =~= expected@);
    true
}

/// Reads the entry that starts at `offset`.
pub fn deserialize_data(data: &[u8], offset: usize) -> (result: Result<
    (usize, SerializationData),
    String,
>)
    requires
        offset <= data@.len(),
    ensures
        match parsed_entry(data@, offset as int) {
            Some((end, entry)) => result matches Ok((limit, value)) && limit == end && value@
                == entry,
            None => result matches Err(text) && text@ == malformed_entry(),
        },
{
    if data.len() - offset < FIXED_LENGTH {
        return Err("Malformed log entry".to_string());
    }
    let mut expected: Vec<u8> = Vec::new();
    little_endian::push_bytes(&mut expected, BLOCK_LENGTH, 2);
    little_endian::push_bytes(&mut expected, TEMPLATE_ID, 2);
    little_endian::push_bytes(&mut expected, SCHEMA_ID, 2);
    little_endian::push_bytes(&mut expected, SCHEMA_VERSION, 2);
    let mut group: Vec<u8> = Vec::new();
    little_endian::push_bytes(&mut group, GROUP_BLOCK_LENGTH, 2);
    proof {
        broadcast use little_endian::lemma_to_bytes_len;

        lemma_header_len();
        assert(expected@ =~= header());
        assert(group@ =~= little_endian::to_bytes(GROUP_BLOCK_LENGTH as nat, 2));
    }
    if !holds(data, offset, &expected) || !holds(data, offset + 56, &group) {
        return Err("Malformed log entry".to_string());
    }
    proof {
        little_endian::lemma_range_of_widths();
    }
    let timestamp: u64 = little_endian::read_bytes(data, offset + 8, 8);
    let term: u64 = little_endian::read_bytes(data, offset + 16, 8);
    let index: u64 = little_endian::read_bytes(data, offset + 24, 8);
    let prev_index: u64 = little_endian::read_bytes(data, offset + 32, 8);
    let prev_term: u64 = little_endian::read_bytes(data, offset + 40, 8);
    let message_id: u64 = little_endian::read_bytes(data, offset + 48, 8);
    let count: u64 = little_endian::read_bytes(data, offset + 58, 2);
    let start: usize = offset + FIXED_LENGTH;
    let mut position: usize = start;
    let mut requests: Vec<RemotePutRequest> = Vec::new();
    let mut done: u64 = 0;
    assert(requests_view(requests@) =~= Seq::empty());
    while done < count
        invariant
            start <= data@.len(),
            done <= count,
            position <= data@.len(),
            parsed_requests(data@, start as int, done as nat) == Some(
                (position as int, requests_view(requests@)),
            ),
            count == little_endian::from_bytes(data@.subrange(offset + 58, offset + 60)),
            start == offset + FIXED_LENGTH,
            parsed_requests(data@, start as int, count as nat) is None ==> parsed_entry(
                data@,
                offset as int,
            ) is None,
        decreases count - done,
    {
        let key = read_text(data, position);
        let value = match &key {
            Some((middle, _)) => read_text(data, *middle),
            None => None,
        };
        if let (Some((middle, id)), Some((end, payload))) = (key, value) {
            let request = RemotePutRequest { id, payload, node_id: 0 };
            let ghost before = requests@;
            requests.push(request);
            assert(requests_view(requests@) =~= requests_view(before).push(request@));
            position = end;
            done = done + 1;
        } else {
            proof {
                lemma_parsed_requests_fails(
                    data@,
                    start as int,
                    (done + 1) as nat,
                    count as nat,
                );
            }
            return Err("Malformed log entry".to_string());
        }
    }
    Ok(
        (
            position,
            SerializationData {
                index,
                term,
                timestamp,
                prev_index,
                prev_term,
                message_id,
                requests,
            },
        ),
    )
}

/// The header of an entry has eight bytes.
proof fn lemma_header_len()
    ensures
        header().len() == 8,
{
    broadcast use little_endian::lemma_to_bytes_len;

}

/// Text is read back from where it was written.
proof fn lemma_parsed_text(before: Seq<u8>, text: Seq<char>, after: Seq<u8>)
    requires
        vstd::utf8::encode_utf8(text).len() <= u32::MAX,
    ensures
        parsed_text(before + encoded_text(text) + after, before.len() as int) == Some(
            ((before.len() + encoded_text(text).len()) as int, text),
        ),
{
    broadcast use little_endian::lemma_to_bytes_len;
    broadcast use vstd::utf8::encode_utf8_valid_utf8, vstd::utf8::encode_utf8_decode_utf8;

    let bytes = vstd::utf8::encode_utf8(text);
    let data = before + encoded_text(text) + after;
    let start = before.len() as int;
    little_endian::lemma_range_of_widths();
    little_endian::law_from_bytes_of_to_bytes(bytes.len(), 4);
    assert(data.subrange(start, start + 4) =~= little_endian::to_bytes(bytes.len(), 4));
    assert(data.subrange(start + 4, start + 4 + bytes.len()) =~= bytes);
}

/// Writes are read back from where they were written.
proof fn lemma_parsed_requests(before: Seq<u8>, requests: Seq<PutRequestView>, after: Seq<u8>)
    requires
        forall|i: int| 0 <= i < requests.len() ==> (#[trigger] requests[i]).is_storable(),
    ensures
        parsed_requests(
            before + encoded_requests(requests) + after,
            before.len() as int,
            requests.len(),
        ) == Some(
            (
                (before.len() + encoded_requests(requests).len()) as int,
                requests.map_values(|r: PutRequestView| r.stored()),
            ),
        ),
    decreases requests.len(),
{
    let data = before + encoded_requests(requests) + after;
    let stored = requests.map_values(|r: PutRequestView| r.stored());
    if requests.len() == 0 {
        assert(stored =~= Seq::empty());
    } else {
        let last = requests.last();
        assert(requests[requests.len() - 1].is_storable());
        let fewer = requests.drop_last();
        let head = before + encoded_requests(fewer);
        let key = encoded_text(last.id);
        let value = encoded_text(last.payload);
        assert forall|i: int| 0 <= i < fewer.len() implies (#[trigger] fewer[i]).is_storable() by {
            assert(fewer[i] == requests[i]);
        }
        assert(data =~= head + (key + value + after));
        lemma_parsed_requests(before, fewer, key + value + after);
        assert(data =~= head + key + (value + after));
        lemma_parsed_text(head, last.id, value + after);
        assert(data =~= (head + key) + value + after);
        lemma_parsed_text(head + key, last.payload, after);
        assert(stored =~= fewer.map_values(|r: PutRequestView| r.stored()).push(last.stored()));
    }
}

/// The fixed part of an entry has its length.
proof fn lemma_fixed_length(entry: EntryView)
    ensures
        entry.block().len() == BLOCK_LENGTH,
        entry.encoded().len() == FIXED_LENGTH + encoded_requests(entry.requests).len(),
{
    broadcast use little_endian::lemma_to_bytes_len;

    lemma_header_len();
}

/// An entry is read back from wherever it was written, with what stands before
/// and behind it out of the way.
pub proof fn law_entry_is_read_back(before: Seq<u8>, entry: EntryView, after: Seq<u8>)
    requires
        entry.is_storable(),
    ensures
        parsed_entry(before + entry.encoded() + after, before.len() as int) == Some(
            ((before.len() + entry.encoded().len()) as int, entry.stored()),
        ),
{
    broadcast use little_endian::lemma_to_bytes_len;

    let data = before + entry.encoded() + after;
    let start = before.len() as int;
    lemma_fixed_length(entry);
    lemma_header_len();
    little_endian::lemma_range_of_widths();
    assert(data.subrange(start, start + 8) =~= header());
    lemma_parsed_u64(data, start + 8, entry.timestamp);
    lemma_parsed_u64(data, start + 16, entry.term);
    lemma_parsed_u64(data, start + 24, entry.index);
    lemma_parsed_u64(data, start + 32, entry.prev_index);
    lemma_parsed_u64(data, start + 40, entry.prev_term);
    lemma_parsed_u64(data, start + 48, entry.message_id);
    assert(data.subrange(start + 56, start + 58) =~= little_endian::to_bytes(
        GROUP_BLOCK_LENGTH as nat,
        2,
    ));
    assert(data.subrange(start + 58, start + 60) =~= little_endian::to_bytes(
        entry.requests.len(),
        2,
    ));
    little_endian::law_from_bytes_of_to_bytes(entry.requests.len(), 2);
    let head = data.take(start + FIXED_LENGTH);
    assert(data =~= head + encoded_requests(entry.requests) + after);
    lemma_parsed_requests(head, entry.requests, after);
}

/// An integer is read back from where it was written.
proof fn lemma_parsed_u64(data: Seq<u8>, start: int, value: u64)
    requires
        0 <= start,
        start + 8 <= data.len(),
        data.subrange(start, start + 8) =~= little_endian::to_bytes(value as nat, 8),
    ensures
        parsed_u64(data, start) == value,
{
    little_endian::lemma_range_of_widths();
    little_endian::law_from_bytes_of_to_bytes(value as nat, 8);
}

/// The bytes of one entry after the other.
pub open spec fn encoded_entries(entries: Seq<EntryView>) -> Seq<u8>
    decreases entries.len(),
{
    if entries.len() == 0 {
        Seq::empty()
    } else {
        entries.first().encoded() + encoded_entries(entries.skip(1))
    }
}

/// A log that was written entry by entry is read back as it was.
pub proof fn law_log_is_read_back(before: Seq<u8>, entries: Seq<EntryView>)
    requires
        forall|i: int| 0 <= i < entries.len() ==> (#[trigger] entries[i]).is_storable(),
    ensures
        parsed_entries(before + encoded_entries(entries), before.len() as int) == Some(
            entries.map_values(|e: EntryView| e.stored()),
        ),
    decreases entries.len(),
{
    let data = before + encoded_entries(entries);
    let stored = entries.map_values(|e: EntryView| e.stored());
    if entries.len() == 0 {
        assert(stored =~= Seq::empty());
    } else {
        let first = entries[0];
        let rest = entries.skip(1);
        assert(first.is_storable());
        assert forall|i: int| 0 <= i < rest.len() implies (#[trigger] rest[i]).is_storable() by {
            assert(rest[i] == entries[i + 1]);
        }
        lemma_fixed_length(first);
        assert(data =~= before + first.encoded() + encoded_entries(rest));
        law_entry_is_read_back(before, first, encoded_entries(rest));
        assert(data =~= (before + first.encoded()) + encoded_entries(rest));
        law_log_is_read_back(before + first.encoded(), rest);
        assert(stored =~= seq![first.stored()] + rest.map_values(|e: EntryView| e.stored()));
    }
}

/// An entry that is read ends behind where it starts, and within the data.
pub proof fn lemma_parsed_entry_end(data: Seq<u8>, start: int)
    requires
        0 <= start,
    ensures
        parsed_entry(data, start) matches Some((end, _)) ==> start + FIXED_LENGTH <= end
            <= data.len(),
{
    if start + FIXED_LENGTH <= data.len() {
        lemma_parsed_requests_end(
            data,
            start + FIXED_LENGTH,
            little_endian::from_bytes(data.subrange(start + 58, start + 60)),
        );
    }
}

/// Writes an entry into `buffer` at `offset`. Returns where it ends, and the buffer.
pub fn serialize_data(
    serialization_data: &SerializationData,
    buffer: Vec<u8>,
    offset: usize,
) -> (result: (usize, Vec<u8>))
    requires
        serialization_data@.is_storable(),
        offset + serialization_data@.encoded().len() <= buffer@.len(),
    ensures
        result.0 == offset + serialization_data@.encoded().len(),
        result.1@ == buffer@.take(offset as int) + serialization_data@.encoded() + buffer@.skip(
            result.0 as int,
        ),
{
    let bytes: Vec<u8> = serialization_data.as_bytes();
    let mut buffer = buffer;
    let ghost original = buffer@;
    let mut done: usize = 0;
    while done < bytes.len()
        invariant
            done <= bytes@.len(),
            offset + bytes@.len() <= buffer@.len() == original.len(),
            forall|i: int|
                0 <= i < original.len() ==> #[trigger] buffer@[i] == if offset <= i < offset
                    + done {
                    bytes@[i - offset]
                } else {
                    original[i]
                },
        decreases bytes@.len() - done,
    {
        let length: usize = buffer.len();
        buffer.set(offset + done, bytes[done]);
        done = done + 1;
    }
    let length: usize = buffer.len();
    let limit: usize = offset + bytes.len();
    assert(buffer@ =~= original.take(offset as int) + bytes@ + original.skip(limit as int));
    (limit, buffer)
}

/// Reads the entries that follow one another in `data`.
pub fn deserialize_all_data(data: &[u8]) -> (result: Result<Vec<SerializationData>, String>)
    ensures
        match parsed_entries(data@, 0) {
            Some(entries) => result matches Ok(values) && values@.map_values(
                |e: SerializationData| e@,
            ) == entries,
            None => result matches Err(text) && text@ == malformed_entry(),
        },
{
    let mut offset: usize = 0;
    let mut results: Vec<SerializationData> = Vec::new();
    let ghost views = |values: Seq<SerializationData>| values.map_values(|e: SerializationData| e@);
    assert(views(results@) =~= Seq::empty());
    proof {
        if let Some(rest) = parsed_entries(data@, 0) {
            assert(Seq::<EntryView>::empty() + rest =~= rest);
        }
    }
    while offset < data.len()
        invariant
            offset <= data@.len(),
            views == (|values: Seq<SerializationData>|
                values.map_values(|e: SerializationData| e@)),
            parsed_entries(data@, 0) == match parsed_entries(data@, offset as int) {
                Some(rest) => Some(views(results@) + rest),
                None => None,
            },
        decreases data@.len() - offset,
    {
        proof {
            lemma_parsed_entry_end(data@, offset as int);
        }
        match deserialize_data(data, offset) {
            Ok((new_offset, entry)) => {
                let ghost before = results@;
                results.push(entry);
                proof {
                    assert(views(results@) =~= views(before).push(entry@));
                    if let Some(rest) = parsed_entries(data@, new_offset as int) {
                        assert(views(before) + (seq![entry@] + rest) =~= views(results@) + rest);
                    }
                }
                offset = new_offset;
            },
            Err(e) => {
                return Err(e);
            },
        }
    }
    assert(views(results@) + Seq::empty() =~= views(results@));
    Ok(results)
}

/// Reads the entries that follow one another in `data`, for the replicated log.
pub fn deserialize_all_data_as_arc(data: &[u8]) -> (result: Result<
    Vec<Arc<SerializationData>>,
    String,
>)
    ensures
        match parsed_entries(data@, 0) {
            Some(entries) => result matches Ok(values) && values@.map_values(
                |e: Arc<SerializationData>| e@,
            ) == entries,
            None => result matches Err(text) && text@ == malformed_entry(),
        },
{
    let entries = match deserialize_all_data(data) {
        Ok(entries) => entries,
        Err(e) => {
            return Err(e);
        },
    };
    let ghost views = entries@.map_values(|e: SerializationData| e@);
    let ghost all = entries@;
    let mut results: Vec<Arc<SerializationData>> = Vec::new();
    for entry in iter: entries
        invariant
            iter.seq() == all,
            results@.len() == iter.index(),
            forall|i: int| 0 <= i < results@.len() ==> *(#[trigger] results@[i]) == all[i],
    {
        results.push(Arc::new(entry));
    }
    assert(results@.map_values(|e: Arc<SerializationData>| e@) =~= views);
    Ok(results)
}

} // verus!
