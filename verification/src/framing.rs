//! Length-prefix framing over an unbounded byte stream: the receive buffer
//! accumulates reads, and whole messages are split off at the length that
//! bytes 16..18 of the common header announce.

use vstd::prelude::*;

use crate::path_attribute::be16;

verus! {

/// Where the first message in the buffer ends: the header's length field.
/// `None` until the 19 header bytes have arrived.
pub fn get_index_of_message_separator(buffer: &Vec<u8>) -> (r: Option<usize>)
    ensures
        buffer@.len() >= 19 ==> r == Some(be16(buffer@[16], buffer@[17]) as usize),
        buffer@.len() < 19 ==> r is None,
{
    if buffer.len() < 19 {
        return None;
    }
    Some((buffer[16] as usize) * 256 + (buffer[17] as usize))
}

/// Splits the first complete message off the front of the buffer, leaving
/// the remainder in place; `None`, and the buffer untouched, until one whole
/// message has arrived.
pub fn split_buffer_at_message_separator(buffer: &mut Vec<u8>) -> (r: Option<Vec<u8>>)
    ensures
        ({
            let sep = be16(old(buffer)@[16], old(buffer)@[17]) as int;
            if old(buffer)@.len() >= 19 && sep <= old(buffer)@.len() {
                r matches Some(msg) && msg@ == old(buffer)@.subrange(0, sep) && final(buffer)@
                    == old(buffer)@.subrange(sep, old(buffer)@.len() as int)
            } else {
                r is None && final(buffer)@ == old(buffer)@
            }
        }),
{
    let index = match get_index_of_message_separator(buffer) {
        Some(i) => i,
        None => {
            return None;
        },
    };
    if buffer.len() < index {
        return None;
    }
    let mut rest = buffer.split_off(index);
    core::mem::swap(buffer, &mut rest);
    Some(rest)
}

} // verus!
