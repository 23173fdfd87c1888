//! The console's output buffer and the keyboard's input buffer: rings of
//! 65536 bytes indexed by wrapping 16-bit read and write pointers. One slot
//! stays empty, so a ring holds at most 65535 bytes.
use vstd::prelude::*;
use vstd::string::StrSliceExecFns;
use crate::files::{decimal, push_decimal};

verus! {

pub const RING_LEN: usize = 65536;

/// The most bytes a ring holds.
pub open spec fn ring_cap() -> nat {
    65535
}

/// How many bytes lie between the read and the write pointer.
pub open spec fn ring_count(r: u16, w: u16) -> nat {
    ((w as int - r as int + 65536) % 65536) as nat
}

/// The bytes waiting in a ring, oldest first.
pub open spec fn ring_view(buf: Seq<u8>, r: u16, w: u16) -> Seq<u8> {
    Seq::new(ring_count(r, w), |k: int| buf[(r as int + k) % 65536])
}

/// The pointer after `p`, wrapping at 65536.
pub open spec fn next_ptr(p: u16) -> u16 {
    ((p as int + 1) % 65536) as u16
}

fn wrapping_next(p: u16) -> (r: u16)
    ensures
        r == next_ptr(p),
{
    if p == u16::MAX {
        0
    } else {
        p + 1
    }
}

fn zeroed_ring(fill: u8) -> (r: Vec<u8>)
    ensures
        r@.len() == RING_LEN,
{
    let mut v: Vec<u8> = Vec::new();
    let mut i: usize = 0;
    while i < RING_LEN
        invariant
            i <= RING_LEN,
            v@.len() == i,
        decreases RING_LEN - i,
    {
        v.push(fill);
        i = i + 1;
    }
    v
}

proof fn lemma_pop(buf: Seq<u8>, r: u16, w: u16)
    requires
        buf.len() == 65536,
        r != w,
    ensures
        ring_count(r, w) > 0,
        ring_view(buf, r, w)[0] == buf[r as int],
        ring_view(buf, next_ptr(r), w) == ring_view(buf, r, w).drop_first(),
{
    let old_v = ring_view(buf, r, w);
    let new_v = ring_view(buf, next_ptr(r), w);
    assert(ring_count(next_ptr(r), w) + 1 == ring_count(r, w));
    assert forall|k: int| 0 <= k < new_v.len() implies new_v[k] == old_v.drop_first()[k] by {
        assert((next_ptr(r) as int + k) % 65536 == (r as int + (k + 1)) % 65536);
    }
    assert(new_v =~= old_v.drop_first());
}

proof fn lemma_push(buf: Seq<u8>, r: u16, w: u16, c: u8)
    requires
        buf.len() == 65536,
        next_ptr(w) != r,
    ensures
        ring_count(r, w) < ring_cap(),
        ring_view(buf.update(w as int, c), r, next_ptr(w)) == ring_view(buf, r, w).push(c),
{
    let old_v = ring_view(buf, r, w);
    let nb = buf.update(w as int, c);
    let new_v = ring_view(nb, r, next_ptr(w));
    assert(ring_count(r, next_ptr(w)) == ring_count(r, w) + 1);
    assert forall|k: int| 0 <= k < new_v.len() implies new_v[k] == old_v.push(c)[k] by {
        if k < old_v.len() {
            assert((r as int + k) % 65536 != w as int);
        } else {
            assert((r as int + k) % 65536 == w as int);
        }
    }
    assert(new_v =~= old_v.push(c));
}

/// The console's buffer of bytes waiting for the UART.
pub struct Console {
    buf: Vec<u8>,
    r_pointer: u16,
    w_pointer: u16,
}

impl View for Console {
    type V = Seq<u8>;

    closed spec fn view(&self) -> Seq<u8> {
        ring_view(self.buf@, self.r_pointer, self.w_pointer)
    }
}

impl Console {
    pub closed spec fn wf(&self) -> bool {
        self.buf@.len() == RING_LEN
    }

    /// An empty console.
    pub fn new() -> (r: Self)
        ensures
            r.wf(),
            r@ == Seq::<u8>::empty(),
    {
        let c = Console { buf: zeroed_ring(0x4d), r_pointer: 0, w_pointer: 0 };
        assert(c@ =~= Seq::<u8>::empty());
        c
    }

    /// Takes the oldest waiting byte, if any.
    pub fn read_next(&mut self) -> (r: Option<u8>)
        requires
            old(self).wf(),
        ensures
            final(self).wf(),
            old(self)@.len() == 0 ==> r.is_none() && final(self)@ == old(self)@,
            old(self)@.len() > 0 ==> r == Some(old(self)@[0]) && final(self)@ == old(self)@.drop_first(),
    {
        if self.r_pointer != self.w_pointer {
            proof {
                lemma_pop(self.buf@, self.r_pointer, self.w_pointer);
            }
            let ret = self.buf[self.r_pointer as usize];
            self.r_pointer = wrapping_next(self.r_pointer);
            Some(ret)
        } else {
            None
        }
    }

    /// Appends a byte; fails, changing nothing, when the ring is full.
    pub fn write_char(&mut self, c: u8) -> (r: Result<(), ()>)
        requires
            old(self).wf(),
        ensures
            final(self).wf(),
            r.is_err() <==> old(self)@.len() == ring_cap(),
            r.is_ok() ==> final(self)@ == old(self)@.push(c),
            r.is_err() ==> final(self)@ == old(self)@,
    {
        if wrapping_next(self.w_pointer) == self.r_pointer {
            Err(())
        } else {
            proof {
                lemma_push(self.buf@, self.r_pointer, self.w_pointer, c);
            }
            let w = self.w_pointer;
            self.buf.set(w as usize, c);
            self.w_pointer = wrapping_next(w);
            Ok(())
        }
    }

    /// Appends the characters of `s` until the ring is full, each ASCII
    /// character as its byte and any other as `m`; returns how many
    /// characters were written.
    pub fn write_str(&mut self, s: &str) -> (n: usize)
        requires
            old(self).wf(),
        ensures
            final(self).wf(),
            n == vstd::math::min(s@.len() as int, ring_cap() - old(self)@.len()),
            final(self)@ == old(self)@ + s@.subrange(0, n as int).map_values(|c: char| console_byte(c)),
    {
        let len = s.unicode_len();
        let mut chars_written: usize = 0;
        while chars_written < len
            invariant
                self.wf(),
                len == s@.len(),
                chars_written <= len,
                chars_written + old(self)@.len() <= ring_cap(),
                self@ == old(self)@ + s@.subrange(0, chars_written as int).map_values(
                    |c: char| console_byte(c),
                ),
            decreases len - chars_written,
        {
            let c = s.get_char(chars_written);
            let b: u8 = if (c as u32) < 128 {
                c as u8
            } else {
                0x6d
            };
            match self.write_char(b) {
                Ok(()) => {},
                Err(()) => {
                    return chars_written;
                },
            }
            proof {
                assert(s@.subrange(0, chars_written + 1) =~= s@.subrange(0, chars_written as int).push(c));
            }
            chars_written = chars_written + 1;
            assert(self@ =~= old(self)@ + s@.subrange(0, chars_written as int).map_values(
                |c: char| console_byte(c),
            ));
        }
        chars_written
    }
}

/// The byte the console keeps for `c`: its code if ASCII, else `m`.
pub open spec fn console_byte(c: char) -> u8 {
    if (c as u32) < 128 {
        c as u8
    } else {
        0x6d
    }
}

pub type Key = u8;

/// Key presses waiting to be read, with at most one more held back while the
/// ring is full.
pub struct Keyboard {
    buf: Vec<Key>,
    pending: Option<Key>,
    r_pointer: u16,
    w_pointer: u16,
}

impl View for Keyboard {
    type V = Seq<Key>;

    closed spec fn view(&self) -> Seq<Key> {
        ring_view(self.buf@, self.r_pointer, self.w_pointer)
    }
}

impl Keyboard {
    pub closed spec fn wf(&self) -> bool {
        self.buf@.len() == RING_LEN
    }

    /// The press held back because the ring was full.
    pub closed spec fn held(&self) -> Option<Key> {
        self.pending
    }

    /// A keyboard with nothing pressed.
    pub fn new() -> (r: Self)
        ensures
            r.wf(),
            r@ == Seq::<Key>::empty(),
            r.held().is_none(),
    {
        let k = Keyboard { buf: zeroed_ring(0), pending: None, r_pointer: 0, w_pointer: 0 };
        assert(k@ =~= Seq::<Key>::empty());
        k
    }

    /// Takes the oldest press, if any.
    pub fn read_next_press(&mut self) -> (r: Option<Key>)
        requires
            old(self).wf(),
        ensures
            final(self).wf(),
            final(self).held() == old(self).held(),
            old(self)@.len() == 0 ==> r.is_none() && final(self)@ == old(self)@,
            old(self)@.len() > 0 ==> r == Some(old(self)@[0]) && final(self)@ == old(self)@.drop_first(),
    {
        if self.r_pointer != self.w_pointer {
            proof {
                lemma_pop(self.buf@, self.r_pointer, self.w_pointer);
            }
            let ret = self.buf[self.r_pointer as usize];
            self.r_pointer = wrapping_next(self.r_pointer);
            Some(ret)
        } else {
            None
        }
    }

    fn push_press(&mut self, key: Key) -> (r: Result<(), ()>)
        requires
            old(self).wf(),
        ensures
            final(self).wf(),
            final(self).pending == old(self).pending,
            r.is_err() <==> old(self)@.len() == ring_cap(),
            r.is_ok() ==> final(self)@ == old(self)@.push(key),
            r.is_err() ==> final(self)@ == old(self)@,
    {
        if wrapping_next(self.w_pointer) == self.r_pointer {
            Err(())
        } else {
            proof {
                lemma_push(self.buf@, self.r_pointer, self.w_pointer, key);
            }
            let w = self.w_pointer;
            self.buf.set(w as usize, key);
            self.w_pointer = wrapping_next(w);
            Ok(())
        }
    }

    /// Records a press. A press held back earlier goes in first, in place of
    /// this one; when the ring is full the press is held back and the call
    /// fails.
    pub fn update_new_press(&mut self, key: Key) -> (r: Result<(), ()>)
        requires
            old(self).wf(),
        ensures
            final(self).wf(),
            ({
                let k = match old(self).held() {
                    Some(p) => p,
                    None => key,
                };
                &&& r.is_err() <==> old(self)@.len() == ring_cap()
                &&& r.is_ok() ==> final(self)@ == old(self)@.push(k) && final(self).held().is_none()
                &&& r.is_err() ==> final(self)@ == old(self)@ && final(self).held() == Some(k)
            }),
    {
        let k = match self.pending {
            Some(p) => p,
            None => key,
        };
        self.pending = None;
        let r = self.push_press(k);
        if r.is_err() {
            self.pending = Some(k);
        }
        r
    }
}

/// Takes every waiting key press, oldest first.
pub fn read_recent_input(keyboard: &mut Keyboard) -> (r: Vec<Key>)
    requires
        old(keyboard).wf(),
    ensures
        final(keyboard).wf(),
        r@ == old(keyboard)@,
        final(keyboard)@.len() == 0,
        final(keyboard).held() == old(keyboard).held(),
{
    let mut out: Vec<Key> = Vec::new();
    loop
        invariant
            keyboard.wf(),
            keyboard.held() == old(keyboard).held(),
            old(keyboard)@ == out@ + keyboard@,
        decreases keyboard@.len(),
    {
        let ghost before = keyboard@;
        match keyboard.read_next_press() {
            Some(k) => {
                out.push(k);
                assert(out@ + keyboard@ =~= old(keyboard)@) by {
                    assert(before =~= seq![k] + before.drop_first());
                }
            },
            None => {
                assert(out@ + keyboard@ =~= out@);
                return out;
            },
        }
    }
}

/// The line printed for a key press: `Key pressed: `, the key's code in
/// decimal, newline.
pub open spec fn key_line(k: Key) -> Seq<u8> {
    seq![75u8, 101, 121, 32, 112, 114, 101, 115, 115, 101, 100, 58, 32] + decimal(k as nat) + seq![10u8]
}

/// The lines for a run of key presses, in order.
pub open spec fn key_lines(keys: Seq<Key>) -> Seq<u8>
    decreases keys.len(),
{
    if keys.len() == 0 {
        Seq::empty()
    } else {
        key_lines(keys.drop_last()) + key_line(keys.last())
    }
}

/// The text printed for the key presses read by `read_recent_input`.
pub fn key_press_text(keys: &Vec<Key>) -> (r: Vec<u8>)
    ensures
        r@ == key_lines(keys@),
{
    let mut out: Vec<u8> = Vec::new();
    let mut i: usize = 0;
    while i < keys.len()
        invariant
            i <= keys@.len(),
            out@ == key_lines(keys@.subrange(0, i as int)),
        decreases keys@.len() - i,
    {
        let ghost before = out@;
        let prefix: [u8; 13] = [75, 101, 121, 32, 112, 114, 101, 115, 115, 101, 100, 58, 32];
        let mut j: usize = 0;
        while j < 13
            invariant
                j <= 13,
                out@ == before + prefix@.subrange(0, j as int),
            decreases 13 - j,
        {
            out.push(prefix[j]);
            j = j + 1;
            assert(out@ =~= before + prefix@.subrange(0, j as int));
        }
        push_decimal(&mut out, keys[i] as u32);
        out.push(10u8);
        proof {
            assert(keys@.subrange(0, i + 1).drop_last() =~= keys@.subrange(0, i as int));
            assert(keys@.subrange(0, i + 1).last() == keys@[i as int]);
            assert(prefix@.subrange(0, 13) =~= seq![75u8, 101, 121, 32, 112, 114, 101, 115, 115, 101, 100, 58, 32]);
            assert(out@ =~= key_lines(keys@.subrange(0, i + 1)));
        }
        i = i + 1;
    }
    assert(keys@.subrange(0, keys@.len() as int) =~= keys@);
    out
}

} // verus!
