//! The hosted wire protocol: every frame is nine 8-byte little-endian
//! words.  Word 0 is the thread ID; words 1..=8 are a call's (or, in a
//! response, a result's) eight-word encoding.  A `SendMessage` frame whose
//! envelope carries memory is followed by a payload of `size` bytes.
//!
//! A build whose words are not 8 bytes wide cannot speak this protocol;
//! the codec works on explicit 64-bit words and rejects words a machine
//! word cannot hold, rather than guessing.

use vstd::prelude::*;

use crate::syscall::SysCall;
use crate::syscall::SysResult;
use crate::syscall::MSG_BORROW;
use crate::syscall::MSG_MOVE;
use crate::syscall::MSG_MUTABLE_BORROW;
use crate::syscall::NR_SEND_MESSAGE;
use crate::Error;

verus! {

/// Bytes in one wire word.
pub const WORD_BYTES: usize = 8;

/// Bytes in one 9-word frame.
pub const FRAME_BYTES: usize = 72;

/// The little-endian bytes of one word.
pub open spec fn spec_word_le(w: u64) -> Seq<u8> {
    seq![
        (w & 0xff) as u8,
        ((w >> 8) & 0xff) as u8,
        ((w >> 16) & 0xff) as u8,
        ((w >> 24) & 0xff) as u8,
        ((w >> 32) & 0xff) as u8,
        ((w >> 40) & 0xff) as u8,
        ((w >> 48) & 0xff) as u8,
        ((w >> 56) & 0xff) as u8,
    ]
}

/// The word eight little-endian bytes spell.
pub open spec fn spec_le_word(
    b0: u8,
    b1: u8,
    b2: u8,
    b3: u8,
    b4: u8,
    b5: u8,
    b6: u8,
    b7: u8,
) -> u64 {
    (b0 as u64) | ((b1 as u64) << 8) | ((b2 as u64) << 16) | ((b3 as u64) << 24) | ((b4 as u64)
        << 32) | ((b5 as u64) << 40) | ((b6 as u64) << 48) | ((b7 as u64) << 56)
}

/// The word spelled at byte offset `off` of a byte sequence.
pub open spec fn spec_word_at(s: Seq<u8>, off: int) -> u64 {
    spec_le_word(
        s[off],
        s[off + 1],
        s[off + 2],
        s[off + 3],
        s[off + 4],
        s[off + 5],
        s[off + 6],
        s[off + 7],
    )
}

/// A word's little-endian bytes spell the word back.
pub proof fn lemma_word_le_round_trip(w: u64)
    ensures
        spec_le_word(
            spec_word_le(w)[0],
            spec_word_le(w)[1],
            spec_word_le(w)[2],
            spec_word_le(w)[3],
            spec_word_le(w)[4],
            spec_word_le(w)[5],
            spec_word_le(w)[6],
            spec_word_le(w)[7],
        ) == w,
{
    assert(((w & 0xff) as u8 as u64) | ((((w >> 8) & 0xff) as u8 as u64) << 8) | ((((w >> 16)
        & 0xff) as u8 as u64) << 16) | ((((w >> 24) & 0xff) as u8 as u64) << 24) | ((((w >> 32)
        & 0xff) as u8 as u64) << 32) | ((((w >> 40) & 0xff) as u8 as u64) << 40) | ((((w >> 48)
        & 0xff) as u8 as u64) << 48) | ((((w >> 56) & 0xff) as u8 as u64) << 56) == w)
        by (bit_vector);
}

/// Append the little-endian bytes of `w` to `out`.
pub fn push_word_le(out: &mut Vec<u8>, w: u64)
    ensures
        final(out)@ == old(out)@ + spec_word_le(w),
{
    out.push((w & 0xff) as u8);
    out.push(((w >> 8) & 0xff) as u8);
    out.push(((w >> 16) & 0xff) as u8);
    out.push(((w >> 24) & 0xff) as u8);
    out.push(((w >> 32) & 0xff) as u8);
    out.push(((w >> 40) & 0xff) as u8);
    out.push(((w >> 48) & 0xff) as u8);
    out.push(((w >> 56) & 0xff) as u8);
    proof {
        assert(final(out)@ =~= old(out)@ + spec_word_le(w));
    }
}

/// Read the word at byte offset `off`.
pub fn read_word_le(bytes: &Vec<u8>, off: usize) -> (r: u64)
    requires
        off + 8 <= bytes@.len(),
    ensures
        r == spec_word_at(bytes@, off as int),
{
    let n: usize = bytes.len();
    proof {
        assert(off + 8 <= n);
    }
    (bytes[off] as u64) | ((bytes[off + 1] as u64) << 8) | ((bytes[off + 2] as u64) << 16) | ((
    bytes[off + 3] as u64) << 24) | ((bytes[off + 4] as u64) << 32) | ((bytes[off + 5] as u64)
        << 40) | ((bytes[off + 6] as u64) << 48) | ((bytes[off + 7] as u64) << 56)
}

/// The nine words of a 72-byte frame.
pub open spec fn spec_frame_words(s: Seq<u8>) -> Seq<u64> {
    seq![
        spec_word_at(s, 0),
        spec_word_at(s, 8),
        spec_word_at(s, 16),
        spec_word_at(s, 24),
        spec_word_at(s, 32),
        spec_word_at(s, 40),
        spec_word_at(s, 48),
        spec_word_at(s, 56),
        spec_word_at(s, 64),
    ]
}

/// Split a raw 72-byte frame into its nine words.
pub fn parse_frame(bytes: &Vec<u8>) -> (r: Vec<u64>)
    requires
        bytes@.len() == FRAME_BYTES,
    ensures
        r@ == spec_frame_words(bytes@),
        r@.len() == 9,
{
    let mut words: Vec<u64> = Vec::new();
    words.push(read_word_le(bytes, 0));
    words.push(read_word_le(bytes, 8));
    words.push(read_word_le(bytes, 16));
    words.push(read_word_le(bytes, 24));
    words.push(read_word_le(bytes, 32));
    words.push(read_word_le(bytes, 40));
    words.push(read_word_le(bytes, 48));
    words.push(read_word_le(bytes, 56));
    words.push(read_word_le(bytes, 64));
    proof {
        assert(words@ =~= spec_frame_words(bytes@));
    }
    words
}

/// Whether a frame announces a payload, and of how many bytes: exactly the
/// `SendMessage` frames whose envelope kind moves or lends memory; the
/// payload length is the envelope's `size` word.
pub open spec fn spec_payload_size(words: Seq<u64>) -> Option<u64> {
    if words[1] == NR_SEND_MESSAGE as u64 && (words[3] == MSG_MUTABLE_BORROW as u64 || words[3]
        == MSG_BORROW as u64 || words[3] == MSG_MOVE as u64) {
        Some(words[6])
    } else {
        None
    }
}

/// See `spec_payload_size`: the reader must read that many further bytes
/// before the frame is complete.
pub fn frame_payload_size(words: &Vec<u64>) -> (r: Option<u64>)
    requires
        words@.len() == 9,
    ensures
        r == spec_payload_size(words@),
{
    if words[1] == NR_SEND_MESSAGE as u64 && (words[3] == MSG_MUTABLE_BORROW as u64 || words[3]
        == MSG_BORROW as u64 || words[3] == MSG_MOVE as u64) {
        Some(words[6])
    } else {
        None
    }
}

/// What the per-connection reader does with a complete frame: hand a
/// decoded call (with its thread ID) to the dispatcher, or ignore the frame
/// and keep reading.
#[derive(Clone, Copy, Debug, PartialEq, Eq, Structural)]
pub enum ReaderAction {
    /// The frame did not decode; it is dropped and the connection goes on.
    Ignore,
    /// The frame decoded: deliver (thread ID, call).
    Deliver(usize, SysCall),
}

/// Whether every word of the frame fits a machine word: a frame from a
/// build with wider words is rejected rather than truncated.
pub open spec fn spec_words_fit(words: Seq<u64>) -> bool {
    forall|k: int| 0 <= k < 9 ==> words[k] <= usize::MAX as u64
}

/// What the reader does with the nine words of a frame: `Deliver` exactly
/// when every word fits a machine word and the call words decode;
/// otherwise `Ignore` — an undecodable frame never terminates the
/// connection, the reader simply continues with the next frame.
pub open spec fn spec_reader_action(words: Seq<u64>) -> ReaderAction {
    if !spec_words_fit(words) {
        ReaderAction::Ignore
    } else {
        match SysCall::spec_decode(
            words[1] as usize,
            words[2] as usize,
            words[3] as usize,
            words[4] as usize,
            words[5] as usize,
            words[6] as usize,
            words[7] as usize,
            words[8] as usize,
        ) {
            Ok(call) => ReaderAction::Deliver(words[0] as usize, call),
            Err(_) => ReaderAction::Ignore,
        }
    }
}

/// Decide what to do with a complete frame.  See `spec_reader_action`.
pub fn reader_action(words: &Vec<u64>) -> (r: ReaderAction)
    requires
        words@.len() == 9,
    ensures
        r == spec_reader_action(words@),
{
    let mut k: usize = 0;
    while k < 9
        invariant
            k <= 9,
            words@.len() == 9,
            forall|j: int| 0 <= j < k ==> words@[j] <= usize::MAX as u64,
        decreases 9 - k,
    {
        if words[k] > usize::MAX as u64 {
            return ReaderAction::Ignore;
        }
        k = k + 1;
    }
    match SysCall::from_args(
        words[1] as usize,
        words[2] as usize,
        words[3] as usize,
        words[4] as usize,
        words[5] as usize,
        words[6] as usize,
        words[7] as usize,
        words[8] as usize,
    ) {
        Ok(call) => ReaderAction::Deliver(words[0] as usize, call),
        Err(_) => ReaderAction::Ignore,
    }
}

/// The bytes of a response frame: the thread ID word, then the result's
/// eight encoded words.
pub open spec fn spec_response_frame(tid: usize, res: SysResult) -> Seq<u8> {
    spec_word_le(tid as u64) + spec_word_le(res.spec_encode()[0] as u64) + spec_word_le(
        res.spec_encode()[1] as u64,
    ) + spec_word_le(res.spec_encode()[2] as u64) + spec_word_le(res.spec_encode()[3] as u64)
        + spec_word_le(res.spec_encode()[4] as u64) + spec_word_le(res.spec_encode()[5] as u64)
        + spec_word_le(res.spec_encode()[6] as u64) + spec_word_le(res.spec_encode()[7] as u64)
}

/// Build the 72-byte response frame for `res`, addressed to thread `tid`.
pub fn build_response_frame(tid: usize, res: &SysResult) -> (r: Vec<u8>)
    ensures
        r@ == spec_response_frame(tid, *res),
        r@.len() == FRAME_BYTES,
{
    let args = res.to_args();
    let mut out: Vec<u8> = Vec::new();
    push_word_le(&mut out, tid as u64);
    push_word_le(&mut out, args[0] as u64);
    push_word_le(&mut out, args[1] as u64);
    push_word_le(&mut out, args[2] as u64);
    push_word_le(&mut out, args[3] as u64);
    push_word_le(&mut out, args[4] as u64);
    push_word_le(&mut out, args[5] as u64);
    push_word_le(&mut out, args[6] as u64);
    push_word_le(&mut out, args[7] as u64);
    proof {
        assert(out@ =~= spec_response_frame(tid, *res));
    }
    out
}

} // verus!
