//! Scan-code decoding, on top of the pc_keyboard crate.
//!
//! The decoder turns the bytes read off the keyboard data port into
//! characters, on the US-104 layout with scan-code set 1.  Its state is
//! a function of the bytes fed since creation, so what a byte decodes to
//! is named over that history alone; key events that carry no character
//! — releases, prefix bytes, raw keys — are dropped, as unrecognized
//! input is.

use vstd::prelude::*;

verus! {

/// Holds pc_keyboard's decoder, configured once for the US-104 layout,
/// scan-code set 1 and control handling off.
#[verifier::external_body]
pub struct KeyboardDecoder {
    inner: pc_keyboard::Keyboard<pc_keyboard::layouts::Us104Key, pc_keyboard::ScancodeSet1>,
}

/// Name for what a decoder holds: the scan-code bytes fed to it since
/// its creation, in order.  They decide its state entirely.
pub uninterp spec fn fed_bytes(d: KeyboardDecoder) -> Seq<u8>;

/// Name for what the decoder yields: the character, if any, decoded
/// when byte `b` arrives after the bytes of `history`, on the US-104
/// layout with scan-code set 1 and control characters not mapped.  The
/// decoder's state is a function of the bytes fed since creation, so
/// the result depends on these arguments alone.
pub uninterp spec fn decoded_char(history: Seq<u8>, b: u8) -> Option<char>;

impl KeyboardDecoder {
    /// Relies on pc_keyboard's Keyboard::new: a fresh decoder for the
    /// US-104 layout and scan-code set 1, control handling off.  Every
    /// decoder made here starts in the same state, so its later state
    /// is decided by the bytes fed to it.
    #[verifier::external_body]
    pub fn new() -> (r: KeyboardDecoder)
        ensures
            fed_bytes(r) == Seq::<u8>::empty(),
    {
        KeyboardDecoder {
            inner: pc_keyboard::Keyboard::new(
                pc_keyboard::layouts::Us104Key,
                pc_keyboard::ScancodeSet1,
                pc_keyboard::HandleControl::Ignore,
            ),
        }
    }

    /// Relies on pc_keyboard's Keyboard::add_byte and process_keyevent,
    /// called in that order on one byte: both are deterministic in the
    /// decoder's state, itself a function of the bytes fed so far, and
    /// together they decode the byte to at most one key.  A key that is
    /// not a character is dropped here, as the simplest mapping the
    /// design asks for.
    #[verifier::external_body]
    pub fn feed_byte(&mut self, b: u8) -> (r: Option<char>)
        ensures
            fed_bytes(*final(self)) == fed_bytes(*old(self)).push(b),
            r == decoded_char(fed_bytes(*old(self)), b),
    {
        match self.inner.add_byte(b) {
            Ok(Some(event)) => match self.inner.process_keyevent(event) {
                Some(pc_keyboard::DecodedKey::Unicode(c)) => Some(c),
                _ => None,
            },
            _ => None,
        }
    }
}

} // verus!
