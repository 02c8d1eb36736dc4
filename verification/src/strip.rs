//! The pixel strip the virtual machine drives: a fixed-length buffer of
//! 24-bit RGB colors, written by `set_pixel` and snapshotted at each
//! frame boundary.

use vstd::prelude::*;

verus! {

/// One pixel's color.
#[derive(Clone, Copy, PartialEq, Eq, Structural, Debug)]
pub struct Pixel {
    pub r: u8,
    pub g: u8,
    pub b: u8,
}

impl Pixel {
    /// An unlit pixel.
    pub fn black() -> (p: Pixel)
        ensures
            p == (Pixel { r: 0, g: 0, b: 0 }),
    {
        Pixel { r: 0, g: 0, b: 0 }
    }
}

/// A strip of pixels held in memory.
pub struct DummyLedStrip {
    buf: Vec<Pixel>,
}

impl View for DummyLedStrip {
    type V = Seq<Pixel>;

    closed spec fn view(&self) -> Seq<Pixel> {
        self.buf@
    }
}

impl DummyLedStrip {
    /// A strip of `length` unlit pixels.
    pub fn new(length: usize) -> (r: DummyLedStrip)
        ensures
            r@.len() == length,
            forall|i: int| 0 <= i < length ==> r@[i] == (Pixel { r: 0, g: 0, b: 0 }),
    {
        DummyLedStrip { buf: vec![Pixel { r: 0, g: 0, b: 0 }; length] }
    }

    /// How many pixels the strip holds.
    pub fn length(&self) -> (r: u32)
        requires
            self@.len() <= u32::MAX,
        ensures
            r == self@.len(),
    {
        self.buf.len() as u32
    }

    /// Mark a frame boundary; the buffer itself is untouched.
    pub fn blit(&mut self)
        ensures
            final(self)@ == old(self)@,
    {
    }

    /// Set one pixel.
    pub fn set_pixel(&mut self, idx: u32, color: Pixel)
        requires
            idx < old(self)@.len(),
        ensures
            final(self)@ == old(self)@.update(idx as int, color),
    {
        self.buf[idx as usize] = color;
    }

    /// Read one pixel.
    pub fn get_pixel(&self, idx: u32) -> (r: Pixel)
        requires
            idx < self@.len(),
        ensures
            r == self@[idx as int],
    {
        self.buf[idx as usize]
    }

    /// A snapshot of the whole strip: the frame as of now.
    pub fn export(&self) -> (r: Vec<Pixel>)
        ensures
            r@ == self@,
    {
        let mut out: Vec<Pixel> = Vec::new();
        let n = self.buf.len();
        let mut i: usize = 0;
        while i < n
            invariant
                i <= n == self@.len(),
                out@ == self@.subrange(0, i as int),
            decreases n - i,
        {
            out.push(self.buf[i]);
            proof {
                assert(out@ =~= self@.subrange(0, i + 1));
            }
            i += 1;
        }
        proof {
            assert(self@.subrange(0, n as int) =~= self@);
        }
        out
    }

    /// Resize the strip: a shorter length keeps the prefix, a longer one
    /// pads with unlit pixels.
    pub fn set_length(&mut self, length: usize)
        ensures
            final(self)@.len() == length,
            forall|i: int|
                0 <= i < length ==> final(self)@[i] == (if i < old(self)@.len() {
                    old(self)@[i]
                } else {
                    Pixel { r: 0, g: 0, b: 0 }
                }),
    {
        if length < self.buf.len() {
            self.buf.truncate(length);
        } else {
            while self.buf.len() < length
                invariant
                    old(self)@.len() <= self.buf@.len() <= length,
                    self.buf@.subrange(0, old(self)@.len() as int) == old(self)@,
                    forall|i: int|
                        old(self)@.len() <= i < self.buf@.len() ==> self.buf@[i] == (Pixel {
                            r: 0,
                            g: 0,
                            b: 0,
                        }),
                decreases length - self.buf@.len(),
            {
                self.buf.push(Pixel { r: 0, g: 0, b: 0 });
                proof {
                    assert(self.buf@.subrange(0, old(self)@.len() as int) =~= old(self)@);
                }
            }
        }
    }
}

} // verus!
