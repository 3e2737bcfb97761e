//! Decisions of the progress display: when to erase what was drawn before,
//! and when to stop.
use vstd::prelude::*;

verus! {

/// The display's state: whether it has drawn yet, and whether it was asked
/// to stop.
pub struct Monitor {
    pub first: bool,
    pub stopped: bool,
}

/// Clears to the end of the line.
pub open spec fn clear_line() -> Seq<u8> {
    seq![0x1bu8, 0x5bu8, 0x4bu8]
}

/// Moves the cursor one line up and clears that line.
pub open spec fn up_and_clear() -> Seq<u8> {
    seq![0x1bu8, 0x5bu8, 0x31u8, 0x41u8, 0x1bu8, 0x5bu8, 0x4bu8]
}

/// Clears the current line, then `n` lines above it.
pub open spec fn erase_bytes(n: nat) -> Seq<u8>
    decreases n,
{
    if n == 0 {
        clear_line()
    } else {
        erase_bytes((n - 1) as nat) + up_and_clear()
    }
}

fn push_all(v: &mut Vec<u8>, s: &[u8])
    ensures
        final(v)@ == old(v)@ + s@,
{
    let mut i: usize = 0;
    while i < s.len()
        invariant
            i <= s@.len(),
            v@ == old(v)@ + s@.take(i as int),
        decreases s@.len() - i,
    {
        v.push(s[i]);
        i = i + 1;
        assert(v@ =~= old(v)@ + s@.take(i as int));
    }
    assert(s@.take(s@.len() as int) =~= s@);
}

/// The bytes that erase a drawing of `n` stages, one line each.
pub fn erase_sequence(n: usize) -> (r: Vec<u8>)
    ensures
        r@ == erase_bytes(n as nat),
{
    let clear: [u8; 3] = [0x1b, 0x5b, 0x4b];
    let up: [u8; 7] = [0x1b, 0x5b, 0x31, 0x41, 0x1b, 0x5b, 0x4b];
    let mut r: Vec<u8> = Vec::new();
    push_all(&mut r, &clear);
    assert(r@ =~= clear_line());
    let mut i: usize = 0;
    while i < n
        invariant
            i <= n,
            r@ == erase_bytes(i as nat),
            up@ == up_and_clear(),
        decreases n - i,
    {
        push_all(&mut r, &up);
        i = i + 1;
    }
    r
}

impl Monitor {
    pub fn new() -> (r: Monitor)
        ensures
            r.first && !r.stopped,
    {
        Monitor { first: true, stopped: false }
    }

    /// Asks the display to stop after its next drawing.
    pub fn end(&mut self)
        ensures
            final(self).stopped,
            final(self).first == old(self).first,
    {
        self.stopped = true;
    }

    /// Called before each drawing: whether the previous drawing is to be
    /// erased first. Only the first drawing erases nothing.
    pub fn begin_draw(&mut self) -> (erase: bool)
        ensures
            erase == !old(self).first,
            !final(self).first,
            final(self).stopped == old(self).stopped,
    {
        let erase = !self.first;
        self.first = false;
        erase
    }
}

} // verus!
