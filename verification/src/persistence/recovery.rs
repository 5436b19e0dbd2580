//! What a node makes of its log when it starts.

use crate::persistence::log_file::{self, LogFile};
use crate::persistence::worker::PersistenceView;
use crate::service_utils::storage_utils;
use vstd::prelude::*;

verus! {

/// The bytes of each entry of a stored log, from `start` on. `None` if anything
/// but entries stands there.
pub open spec fn entry_pieces(data: Seq<u8>, start: int) -> Option<Seq<Seq<u8>>>
    decreases data.len() - start,
    when 0 <= start
{
    if start >= data.len() {
        Some(Seq::empty())
    } else {
        match storage_utils::parsed_entry(data, start) {
            None => None,
            Some((end, _)) => {
                if start < end <= data.len() {
                    match entry_pieces(data, end) {
                        None => None,
                        Some(rest) => Some(seq![data.subrange(start, end)] + rest),
                    }
                } else {
                    None
                }
            },
        }
    }
}

/// Whether `offsets` say where each of the entries ends.
pub open spec fn are_ends(offsets: Seq<u64>, pieces: Seq<Seq<u8>>) -> bool {
    &&& offsets.len() == pieces.len()
    &&& forall|i: int|
        0 <= i < pieces.len() ==> #[trigger] offsets[i] == log_file::joined(
            pieces.take(i + 1),
        ).len()
}

proof fn lemma_joined_add(first: Seq<Seq<u8>>, second: Seq<Seq<u8>>)
    ensures
        log_file::joined(first + second) == log_file::joined(first) + log_file::joined(second),
    decreases second.len(),
{
    if second.len() == 0 {
        assert(first + second =~= first);
        assert(log_file::joined(first) + log_file::joined(second) =~= log_file::joined(first));
    } else {
        lemma_joined_add(first, second.drop_last());
        assert((first + second).drop_last() =~= first + second.drop_last());
        assert(log_file::joined(first + second) =~= log_file::joined(first) + log_file::joined(
            second,
        ));
    }
}

/// The entries of a stored log, one after the other, are the log.
pub proof fn law_pieces_are_the_log(data: Seq<u8>, start: int)
    requires
        0 <= start <= data.len(),
    ensures
        entry_pieces(data, start) matches Some(pieces) ==> log_file::joined(pieces) == data.skip(
            start,
        ),
    decreases data.len() - start,
{
    if start >= data.len() {
        assert(data.skip(start) =~= Seq::empty());
    } else if let Some((end, _)) = storage_utils::parsed_entry(data, start) {
        if start < end <= data.len() {
            law_pieces_are_the_log(data, end);
            if let Some(rest) = entry_pieces(data, end) {
                let piece = seq![data.subrange(start, end)];
                lemma_joined_add(piece, rest);
                assert(piece.drop_last() =~= Seq::empty());
                assert(log_file::joined(piece) =~= data.subrange(start, end)) by {
                    assert(log_file::joined(Seq::<Seq<u8>>::empty()) =~= Seq::empty());
                }
                assert(data.subrange(start, end) + data.skip(end) =~= data.skip(start));
            }
        }
    }
}

/// A worker that starts with the offsets of a stored log keeps account of it.
pub proof fn law_recovered_offsets_keep_log(
    out_dir: Seq<char>,
    data: Seq<u8>,
    pieces: Seq<Seq<u8>>,
    offsets: Seq<u64>,
)
    requires
        entry_pieces(data, 0) == Some(pieces),
        are_ends(offsets, pieces),
    ensures
        (PersistenceView {
            out_dir,
            offsets,
            pending: Seq::empty(),
            actions: Seq::empty(),
        }).keeps(LogFile { written: data, flushed: data.len() as int }, pieces),
{
    law_pieces_are_the_log(data, 0);
    assert(data.skip(0) =~= data);
}

/// Where each entry of a stored log ends.
pub fn entry_end_offsets(data: &[u8]) -> (result: Result<Vec<u64>, String>)
    ensures
        match entry_pieces(data@, 0) {
            Some(pieces) => result matches Ok(offsets) && are_ends(offsets@, pieces),
            None => result matches Err(text) && text@ == storage_utils::malformed_entry(),
        },
{
    let len: usize = data.len();
    let mut offset: usize = 0;
    let mut offsets: Vec<u64> = Vec::new();
    let ghost mut pieces: Seq<Seq<u8>> = Seq::empty();
    proof {
        if let Some(rest) = entry_pieces(data@, 0) {
            assert(pieces + rest =~= rest);
        }
    }
    while offset < len
        invariant
            len == data@.len(),
            offset <= len,
            are_ends(offsets@, pieces),
            log_file::joined(pieces).len() == offset,
            entry_pieces(data@, 0) == match entry_pieces(data@, offset as int) {
                Some(rest) => Some(pieces + rest),
                None => None,
            },
        decreases len - offset,
    {
        proof {
            storage_utils::lemma_parsed_entry_end(data@, offset as int);
        }
        match storage_utils::deserialize_data(data, offset) {
            Ok((new_offset, _)) => {
                proof {
                    let piece = data@.subrange(offset as int, new_offset as int);
                    let longer = pieces.push(piece);
                    assert(longer.drop_last() =~= pieces);
                    assert(log_file::joined(longer).len() == new_offset);
                    assert forall|i: int| 0 <= i < longer.len() implies #[trigger] offsets@.push(
                        new_offset as u64,
                    )[i] == log_file::joined(longer.take(i + 1)).len() by {
                        if i < pieces.len() {
                            assert(longer.take(i + 1) =~= pieces.take(i + 1));
                            assert(offsets@[i] == log_file::joined(pieces.take(i + 1)).len());
                        } else {
                            assert(longer.take(i + 1) =~= longer);
                        }
                    }
                    if let Some(rest) = entry_pieces(data@, new_offset as int) {
                        assert(pieces + (seq![piece] + rest) =~= longer + rest);
                    }
                    pieces = longer;
                }
                offsets.push(new_offset as u64);
                offset = new_offset;
            },
            Err(e) => {
                return Err(e);
            },
        }
    }
    assert(pieces + Seq::empty() =~= pieces);
    Ok(offsets)
}

} // verus!
