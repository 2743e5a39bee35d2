//! Instruction words and their decoding.
//!
//! A CHIP-8 instruction is a 16-bit big-endian word. The high nibble
//! selects a family; some families dispatch further on the low byte or
//! the low nibble. A word that matches no known encoding decodes to the
//! explicit `Unkn` variant, which is fatal to execute.

use vstd::prelude::*;

verus! {

/// One decoded instruction with its operands.
///
/// Register indices (`x`, `y`) are nibbles below 16, `nn` is the low
/// byte, `nnn` the low 12 bits, and `n` the low nibble.
#[derive(Clone, Copy, Debug, PartialEq, Eq, Structural)]
pub enum OpCode {
    /// A word that matches no known encoding; executing it is fatal.
    Unkn(u16),
    /// `00E0`: clear the display.
    Cls,
    /// `00EE`: return from a subroutine.
    Ret,
    /// `1NNN`: jump to NNN.
    Jmp(u16),
    /// `2NNN`: call the subroutine at NNN.
    Call(u16),
    /// `3XNN`: skip the next instruction if VX == NN.
    SeVxNn(u8, u8),
    /// `4XNN`: skip the next instruction if VX != NN.
    SneVxNn(u8, u8),
    /// `5XY0`: skip the next instruction if VX == VY.
    SeVxVy(u8, u8),
    /// `6XNN`: VX := NN.
    LdVxNn(u8, u8),
    /// `7XNN`: VX := VX + NN, wrapping, no flag.
    AddVxNn(u8, u8),
    /// `8XY0`: VX := VY.
    LdVxVy(u8, u8),
    /// `8XY1`: VX := VX | VY.
    OrVxVy(u8, u8),
    /// `8XY2`: VX := VX & VY.
    AndVxVy(u8, u8),
    /// `8XY3`: VX := VX ^ VY.
    XorVxVy(u8, u8),
    /// `8XY4`: VX := VX + VY; VF records the carry.
    AddVxVy(u8, u8),
    /// `8XY5`: VX := VX - VY; VF records the borrow.
    SubVxVy(u8, u8),
    /// `8XY6`: VX := VY shifted right by one; VF takes the shifted-out bit.
    ShrVxVy(u8, u8),
    /// `8XY7`: VX := VY - VX; VF records the borrow.
    SubnVxVy(u8, u8),
    /// `8XYE`: VX := VY shifted left by one; VF takes the shifted-out bit.
    ShlVxVy(u8, u8),
    /// `9XY0`: skip the next instruction if VX != VY.
    SneVxVy(u8, u8),
    /// `ANNN`: I := NNN.
    LdINn(u16),
    /// `BNNN`: jump to NNN + V0.
    JmpV0Nnn(u16),
    /// `CXNN`: VX := random byte & NN.
    RndVxNn(u8, u8),
    /// `DXYN`: draw the N-byte sprite at memory[I..] at (VX, VY).
    DrawVxVyN(u8, u8, u8),
    /// `EX9E`: skip the next instruction if key VX is pressed.
    SkpVx(u8),
    /// `EXA1`: skip the next instruction if key VX is not pressed.
    SknpVx(u8),
    /// `FX07`: VX := delay timer.
    LdVxDt(u8),
    /// `FX0A`: block until a key is pressed; VX := that key.
    LdVxK(u8),
    /// `FX15`: delay timer := VX.
    LdDtVx(u8),
    /// `FX18`: sound timer := VX.
    LdStVx(u8),
    /// `FX1E`: I := I + VX, 16-bit wrapping, no flag.
    AddIVx(u8),
    /// `FX29`: I := address of the font glyph for VX.
    LdFVx(u8),
    /// `FX33`: store the decimal digits of VX at I, I+1, I+2.
    LdBVx(u8),
    /// `FX55`: store V0..=VX to memory starting at I.
    LdIVx(u8),
    /// `FX65`: load V0..=VX from memory starting at I.
    LdVxI(u8),
}

impl OpCode {
    /// Operand ranges that decoding guarantees: register indices and
    /// low nibbles below 16, 12-bit addresses below 0x1000.
    pub open spec fn wf(self) -> bool {
        match self {
            OpCode::Unkn(_) => true,
            OpCode::Cls => true,
            OpCode::Ret => true,
            OpCode::Jmp(nnn) => nnn < 0x1000,
            OpCode::Call(nnn) => nnn < 0x1000,
            OpCode::SeVxNn(x, _) => x < 16,
            OpCode::SneVxNn(x, _) => x < 16,
            OpCode::SeVxVy(x, y) => x < 16 && y < 16,
            OpCode::LdVxNn(x, _) => x < 16,
            OpCode::AddVxNn(x, _) => x < 16,
            OpCode::LdVxVy(x, y) => x < 16 && y < 16,
            OpCode::OrVxVy(x, y) => x < 16 && y < 16,
            OpCode::AndVxVy(x, y) => x < 16 && y < 16,
            OpCode::XorVxVy(x, y) => x < 16 && y < 16,
            OpCode::AddVxVy(x, y) => x < 16 && y < 16,
            OpCode::SubVxVy(x, y) => x < 16 && y < 16,
            OpCode::ShrVxVy(x, y) => x < 16 && y < 16,
            OpCode::SubnVxVy(x, y) => x < 16 && y < 16,
            OpCode::ShlVxVy(x, y) => x < 16 && y < 16,
            OpCode::SneVxVy(x, y) => x < 16 && y < 16,
            OpCode::LdINn(nnn) => nnn < 0x1000,
            OpCode::JmpV0Nnn(nnn) => nnn < 0x1000,
            OpCode::RndVxNn(x, _) => x < 16,
            OpCode::DrawVxVyN(x, y, n) => x < 16 && y < 16 && n < 16,
            OpCode::SkpVx(x) => x < 16,
            OpCode::SknpVx(x) => x < 16,
            OpCode::LdVxDt(x) => x < 16,
            OpCode::LdVxK(x) => x < 16,
            OpCode::LdDtVx(x) => x < 16,
            OpCode::LdStVx(x) => x < 16,
            OpCode::AddIVx(x) => x < 16,
            OpCode::LdFVx(x) => x < 16,
            OpCode::LdBVx(x) => x < 16,
            OpCode::LdIVx(x) => x < 16,
            OpCode::LdVxI(x) => x < 16,
        }
    }

    /// A valid encoding: a known variant with in-range operands.
    pub open spec fn valid(self) -> bool {
        self.wf() && !(self is Unkn)
    }
}

/// What `decode` returns for each word.
#[verifier::opaque]
pub open spec fn spec_decode(w: u16) -> OpCode {
    let family = w / 0x1000;
    let nnn = w % 0x1000;
    let x = ((w % 0x1000) / 0x100) as u8;
    let nn = (w % 0x100) as u8;
    let y = ((w % 0x100) / 0x10) as u8;
    let n = (w % 0x10) as u8;
    if family == 0x0 {
        if w == 0x00EE {
            OpCode::Ret
        } else if w == 0x00E0 {
            OpCode::Cls
        } else {
            OpCode::Unkn(w)
        }
    } else if family == 0x1 {
        OpCode::Jmp(nnn)
    } else if family == 0x2 {
        OpCode::Call(nnn)
    } else if family == 0x3 {
        OpCode::SeVxNn(x, nn)
    } else if family == 0x4 {
        OpCode::SneVxNn(x, nn)
    } else if family == 0x5 {
        OpCode::SeVxVy(x, y)
    } else if family == 0x6 {
        OpCode::LdVxNn(x, nn)
    } else if family == 0x7 {
        OpCode::AddVxNn(x, nn)
    } else if family == 0x8 {
        if n == 0x0 {
            OpCode::LdVxVy(x, y)
        } else if n == 0x1 {
            OpCode::OrVxVy(x, y)
        } else if n == 0x2 {
            OpCode::AndVxVy(x, y)
        } else if n == 0x3 {
            OpCode::XorVxVy(x, y)
        } else if n == 0x4 {
            OpCode::AddVxVy(x, y)
        } else if n == 0x5 {
            OpCode::SubVxVy(x, y)
        } else if n == 0x6 {
            OpCode::ShrVxVy(x, y)
        } else if n == 0x7 {
            OpCode::SubnVxVy(x, y)
        } else if n == 0xE {
            OpCode::ShlVxVy(x, y)
        } else {
            OpCode::Unkn(w)
        }
    } else if family == 0x9 {
        OpCode::SneVxVy(x, y)
    } else if family == 0xA {
        OpCode::LdINn(nnn)
    } else if family == 0xB {
        OpCode::JmpV0Nnn(nnn)
    } else if family == 0xC {
        OpCode::RndVxNn(x, nn)
    } else if family == 0xD {
        OpCode::DrawVxVyN(x, y, n)
    } else if family == 0xE {
        if nn == 0x9E {
            OpCode::SkpVx(x)
        } else if nn == 0xA1 {
            OpCode::SknpVx(x)
        } else {
            OpCode::Unkn(w)
        }
    } else {
        if nn == 0x07 {
            OpCode::LdVxDt(x)
        } else if nn == 0x0A {
            OpCode::LdVxK(x)
        } else if nn == 0x15 {
            OpCode::LdDtVx(x)
        } else if nn == 0x18 {
            OpCode::LdStVx(x)
        } else if nn == 0x1E {
            OpCode::AddIVx(x)
        } else if nn == 0x29 {
            OpCode::LdFVx(x)
        } else if nn == 0x33 {
            OpCode::LdBVx(x)
        } else if nn == 0x55 {
            OpCode::LdIVx(x)
        } else if nn == 0x65 {
            OpCode::LdVxI(x)
        } else {
            OpCode::Unkn(w)
        }
    }
}

/// Decoding only ever produces in-range operands.
pub proof fn lemma_decode_wf(w: u16)
    ensures
        spec_decode(w).wf(),
{
    reveal(spec_decode);
    vstd::arithmetic::div_mod::lemma_fundamental_div_mod(w as int % 0x1000, 0x100);
    vstd::arithmetic::div_mod::lemma_mod_bound(w as int, 0x1000);
    vstd::arithmetic::div_mod::lemma_mod_bound(w as int, 0x100);
    vstd::arithmetic::div_mod::lemma_fundamental_div_mod(w as int % 0x100, 0x10);
}

/// Decode a 16-bit instruction word into its variant.
pub fn decode(w: u16) -> (op: OpCode)
    ensures
        op == spec_decode(w),
{
    proof {
        reveal(spec_decode);
    }
    let family = w / 0x1000;
    let nnn = w % 0x1000;
    let x = ((w % 0x1000) / 0x100) as u8;
    let nn = (w % 0x100) as u8;
    let y = ((w % 0x100) / 0x10) as u8;
    let n = (w % 0x10) as u8;
    if family == 0x0 {
        if w == 0x00EE {
            OpCode::Ret
        } else if w == 0x00E0 {
            OpCode::Cls
        } else {
            OpCode::Unkn(w)
        }
    } else if family == 0x1 {
        OpCode::Jmp(nnn)
    } else if family == 0x2 {
        OpCode::Call(nnn)
    } else if family == 0x3 {
        OpCode::SeVxNn(x, nn)
    } else if family == 0x4 {
        OpCode::SneVxNn(x, nn)
    } else if family == 0x5 {
        OpCode::SeVxVy(x, y)
    } else if family == 0x6 {
        OpCode::LdVxNn(x, nn)
    } else if family == 0x7 {
        OpCode::AddVxNn(x, nn)
    } else if family == 0x8 {
        if n == 0x0 {
            OpCode::LdVxVy(x, y)
        } else if n == 0x1 {
            OpCode::OrVxVy(x, y)
        } else if n == 0x2 {
            OpCode::AndVxVy(x, y)
        } else if n == 0x3 {
            OpCode::XorVxVy(x, y)
        } else if n == 0x4 {
            OpCode::AddVxVy(x, y)
        } else if n == 0x5 {
            OpCode::SubVxVy(x, y)
        } else if n == 0x6 {
            OpCode::ShrVxVy(x, y)
        } else if n == 0x7 {
            OpCode::SubnVxVy(x, y)
        } else if n == 0xE {
            OpCode::ShlVxVy(x, y)
        } else {
            OpCode::Unkn(w)
        }
    } else if family == 0x9 {
        OpCode::SneVxVy(x, y)
    } else if family == 0xA {
        OpCode::LdINn(nnn)
    } else if family == 0xB {
        OpCode::JmpV0Nnn(nnn)
    } else if family == 0xC {
        OpCode::RndVxNn(x, nn)
    } else if family == 0xD {
        OpCode::DrawVxVyN(x, y, n)
    } else if family == 0xE {
        if nn == 0x9E {
            OpCode::SkpVx(x)
        } else if nn == 0xA1 {
            OpCode::SknpVx(x)
        } else {
            OpCode::Unkn(w)
        }
    } else {
        if nn == 0x07 {
            OpCode::LdVxDt(x)
        } else if nn == 0x0A {
            OpCode::LdVxK(x)
        } else if nn == 0x15 {
            OpCode::LdDtVx(x)
        } else if nn == 0x18 {
            OpCode::LdStVx(x)
        } else if nn == 0x1E {
            OpCode::AddIVx(x)
        } else if nn == 0x29 {
            OpCode::LdFVx(x)
        } else if nn == 0x33 {
            OpCode::LdBVx(x)
        } else if nn == 0x55 {
            OpCode::LdIVx(x)
        } else if nn == 0x65 {
            OpCode::LdVxI(x)
        } else {
            OpCode::Unkn(w)
        }
    }
}

/// The canonical instruction word for a variant; meaningful for
/// valid encodings, and the identity on `Unkn`.
pub open spec fn spec_encode(op: OpCode) -> u16
    recommends
        op.wf(),
{
    match op {
        OpCode::Unkn(w) => w,
        OpCode::Cls => 0x00E0,
        OpCode::Ret => 0x00EE,
        OpCode::Jmp(nnn) => (0x1000 + nnn) as u16,
        OpCode::Call(nnn) => (0x2000 + nnn) as u16,
        OpCode::SeVxNn(x, nn) => (0x3000 + x * 0x100 + nn) as u16,
        OpCode::SneVxNn(x, nn) => (0x4000 + x * 0x100 + nn) as u16,
        OpCode::SeVxVy(x, y) => (0x5000 + x * 0x100 + y * 0x10) as u16,
        OpCode::LdVxNn(x, nn) => (0x6000 + x * 0x100 + nn) as u16,
        OpCode::AddVxNn(x, nn) => (0x7000 + x * 0x100 + nn) as u16,
        OpCode::LdVxVy(x, y) => (0x8000 + x * 0x100 + y * 0x10) as u16,
        OpCode::OrVxVy(x, y) => (0x8001 + x * 0x100 + y * 0x10) as u16,
        OpCode::AndVxVy(x, y) => (0x8002 + x * 0x100 + y * 0x10) as u16,
        OpCode::XorVxVy(x, y) => (0x8003 + x * 0x100 + y * 0x10) as u16,
        OpCode::AddVxVy(x, y) => (0x8004 + x * 0x100 + y * 0x10) as u16,
        OpCode::SubVxVy(x, y) => (0x8005 + x * 0x100 + y * 0x10) as u16,
        OpCode::ShrVxVy(x, y) => (0x8006 + x * 0x100 + y * 0x10) as u16,
        OpCode::SubnVxVy(x, y) => (0x8007 + x * 0x100 + y * 0x10) as u16,
        OpCode::ShlVxVy(x, y) => (0x800E + x * 0x100 + y * 0x10) as u16,
        OpCode::SneVxVy(x, y) => (0x9000 + x * 0x100 + y * 0x10) as u16,
        OpCode::LdINn(nnn) => (0xA000 + nnn) as u16,
        OpCode::JmpV0Nnn(nnn) => (0xB000 + nnn) as u16,
        OpCode::RndVxNn(x, nn) => (0xC000 + x * 0x100 + nn) as u16,
        OpCode::DrawVxVyN(x, y, n) => (0xD000 + x * 0x100 + y * 0x10 + n) as u16,
        OpCode::SkpVx(x) => (0xE09E + x * 0x100) as u16,
        OpCode::SknpVx(x) => (0xE0A1 + x * 0x100) as u16,
        OpCode::LdVxDt(x) => (0xF007 + x * 0x100) as u16,
        OpCode::LdVxK(x) => (0xF00A + x * 0x100) as u16,
        OpCode::LdDtVx(x) => (0xF015 + x * 0x100) as u16,
        OpCode::LdStVx(x) => (0xF018 + x * 0x100) as u16,
        OpCode::AddIVx(x) => (0xF01E + x * 0x100) as u16,
        OpCode::LdFVx(x) => (0xF029 + x * 0x100) as u16,
        OpCode::LdBVx(x) => (0xF033 + x * 0x100) as u16,
        OpCode::LdIVx(x) => (0xF055 + x * 0x100) as u16,
        OpCode::LdVxI(x) => (0xF065 + x * 0x100) as u16,
    }
}

/// Encode a variant into its canonical instruction word.
pub fn encode(op: OpCode) -> (w: u16)
    requires
        op.wf(),
    ensures
        w == spec_encode(op),
{
    match op {
        OpCode::Unkn(w) => w,
        OpCode::Cls => 0x00E0,
        OpCode::Ret => 0x00EE,
        OpCode::Jmp(nnn) => 0x1000 + nnn,
        OpCode::Call(nnn) => 0x2000 + nnn,
        OpCode::SeVxNn(x, nn) => 0x3000 + (x as u16) * 0x100 + (nn as u16),
        OpCode::SneVxNn(x, nn) => 0x4000 + (x as u16) * 0x100 + (nn as u16),
        OpCode::SeVxVy(x, y) => 0x5000 + (x as u16) * 0x100 + (y as u16) * 0x10,
        OpCode::LdVxNn(x, nn) => 0x6000 + (x as u16) * 0x100 + (nn as u16),
        OpCode::AddVxNn(x, nn) => 0x7000 + (x as u16) * 0x100 + (nn as u16),
        OpCode::LdVxVy(x, y) => 0x8000 + (x as u16) * 0x100 + (y as u16) * 0x10,
        OpCode::OrVxVy(x, y) => 0x8001 + (x as u16) * 0x100 + (y as u16) * 0x10,
        OpCode::AndVxVy(x, y) => 0x8002 + (x as u16) * 0x100 + (y as u16) * 0x10,
        OpCode::XorVxVy(x, y) => 0x8003 + (x as u16) * 0x100 + (y as u16) * 0x10,
        OpCode::AddVxVy(x, y) => 0x8004 + (x as u16) * 0x100 + (y as u16) * 0x10,
        OpCode::SubVxVy(x, y) => 0x8005 + (x as u16) * 0x100 + (y as u16) * 0x10,
        OpCode::ShrVxVy(x, y) => 0x8006 + (x as u16) * 0x100 + (y as u16) * 0x10,
        OpCode::SubnVxVy(x, y) => 0x8007 + (x as u16) * 0x100 + (y as u16) * 0x10,
        OpCode::ShlVxVy(x, y) => 0x800E + (x as u16) * 0x100 + (y as u16) * 0x10,
        OpCode::SneVxVy(x, y) => 0x9000 + (x as u16) * 0x100 + (y as u16) * 0x10,
        OpCode::LdINn(nnn) => 0xA000 + nnn,
        OpCode::JmpV0Nnn(nnn) => 0xB000 + nnn,
        OpCode::RndVxNn(x, nn) => 0xC000 + (x as u16) * 0x100 + (nn as u16),
        OpCode::DrawVxVyN(x, y, n) => 0xD000 + (x as u16) * 0x100 + (y as u16) * 0x10 + (n as u16),
        OpCode::SkpVx(x) => 0xE09E + (x as u16) * 0x100,
        OpCode::SknpVx(x) => 0xE0A1 + (x as u16) * 0x100,
        OpCode::LdVxDt(x) => 0xF007 + (x as u16) * 0x100,
        OpCode::LdVxK(x) => 0xF00A + (x as u16) * 0x100,
        OpCode::LdDtVx(x) => 0xF015 + (x as u16) * 0x100,
        OpCode::LdStVx(x) => 0xF018 + (x as u16) * 0x100,
        OpCode::AddIVx(x) => 0xF01E + (x as u16) * 0x100,
        OpCode::LdFVx(x) => 0xF029 + (x as u16) * 0x100,
        OpCode::LdBVx(x) => 0xF033 + (x as u16) * 0x100,
        OpCode::LdIVx(x) => 0xF055 + (x as u16) * 0x100,
        OpCode::LdVxI(x) => 0xF065 + (x as u16) * 0x100,
    }
}

/// How a word `f*0x1000 + nnn` splits back into its fields.
proof fn lemma_fields_nnn(f: int, nnn: int)
    requires
        0 <= f < 16,
        0 <= nnn < 0x1000,
    ensures
        (f * 0x1000 + nnn) / 0x1000 == f,
        (f * 0x1000 + nnn) % 0x1000 == nnn,
        f * 0x1000 + nnn < 0x10000,
{
    vstd::arithmetic::div_mod::lemma_fundamental_div_mod_converse(
        f * 0x1000 + nnn,
        0x1000,
        f,
        nnn,
    );
}

/// How a word `f*0x1000 + x*0x100 + nn` splits back into its fields.
proof fn lemma_fields_x_nn(f: int, x: int, nn: int)
    requires
        0 <= f < 16,
        0 <= x < 16,
        0 <= nn < 0x100,
    ensures
        ({
            let w = f * 0x1000 + x * 0x100 + nn;
            &&& w / 0x1000 == f
            &&& (w % 0x1000) / 0x100 == x
            &&& w % 0x100 == nn
            &&& w < 0x10000
        }),
{
    let w = f * 0x1000 + x * 0x100 + nn;
    vstd::arithmetic::div_mod::lemma_fundamental_div_mod_converse(w, 0x1000, f, x * 0x100 + nn);
    vstd::arithmetic::div_mod::lemma_fundamental_div_mod_converse(x * 0x100 + nn, 0x100, x, nn);
    vstd::arithmetic::div_mod::lemma_fundamental_div_mod_converse(w, 0x100, f * 0x10 + x, nn);
}

/// How a word `f*0x1000 + x*0x100 + y*0x10 + n` splits back into its
/// fields.
proof fn lemma_fields_x_y_n(f: int, x: int, y: int, n: int)
    requires
        0 <= f < 16,
        0 <= x < 16,
        0 <= y < 16,
        0 <= n < 16,
    ensures
        ({
            let w = f * 0x1000 + x * 0x100 + y * 0x10 + n;
            &&& w / 0x1000 == f
            &&& (w % 0x1000) / 0x100 == x
            &&& (w % 0x100) / 0x10 == y
            &&& w % 0x10 == n
            &&& w % 0x100 == y * 0x10 + n
            &&& w < 0x10000
        }),
{
    let w = f * 0x1000 + x * 0x100 + y * 0x10 + n;
    vstd::arithmetic::div_mod::lemma_fundamental_div_mod_converse(
        w,
        0x1000,
        f,
        x * 0x100 + y * 0x10 + n,
    );
    vstd::arithmetic::div_mod::lemma_fundamental_div_mod_converse(
        x * 0x100 + y * 0x10 + n,
        0x100,
        x,
        y * 0x10 + n,
    );
    vstd::arithmetic::div_mod::lemma_fundamental_div_mod_converse(
        w,
        0x100,
        f * 0x10 + x,
        y * 0x10 + n,
    );
    vstd::arithmetic::div_mod::lemma_fundamental_div_mod_converse(y * 0x10 + n, 0x10, y, n);
    vstd::arithmetic::div_mod::lemma_fundamental_div_mod_converse(
        w,
        0x10,
        f * 0x100 + x * 0x10 + y,
        n,
    );
}

/// Decoding is a left inverse of encoding: every valid variant comes
/// back unchanged from its canonical word, so programs written from
/// valid encodings decode to exactly the opcodes they were written
/// from.
pub proof fn lemma_decode_encode(op: OpCode)
    requires
        op.valid(),
    ensures
        spec_decode(spec_encode(op)) == op,
{
    reveal(spec_decode);
    match op {
        OpCode::Unkn(_) => {},
        OpCode::Cls => {},
        OpCode::Ret => {},
        OpCode::Jmp(nnn) => lemma_fields_nnn(0x1, nnn as int),
        OpCode::Call(nnn) => lemma_fields_nnn(0x2, nnn as int),
        OpCode::SeVxNn(x, nn) => lemma_fields_x_nn(0x3, x as int, nn as int),
        OpCode::SneVxNn(x, nn) => lemma_fields_x_nn(0x4, x as int, nn as int),
        OpCode::SeVxVy(x, y) => lemma_fields_x_y_n(0x5, x as int, y as int, 0),
        OpCode::LdVxNn(x, nn) => lemma_fields_x_nn(0x6, x as int, nn as int),
        OpCode::AddVxNn(x, nn) => lemma_fields_x_nn(0x7, x as int, nn as int),
        OpCode::LdVxVy(x, y) => lemma_fields_x_y_n(0x8, x as int, y as int, 0x0),
        OpCode::OrVxVy(x, y) => lemma_fields_x_y_n(0x8, x as int, y as int, 0x1),
        OpCode::AndVxVy(x, y) => lemma_fields_x_y_n(0x8, x as int, y as int, 0x2),
        OpCode::XorVxVy(x, y) => lemma_fields_x_y_n(0x8, x as int, y as int, 0x3),
        OpCode::AddVxVy(x, y) => lemma_fields_x_y_n(0x8, x as int, y as int, 0x4),
        OpCode::SubVxVy(x, y) => lemma_fields_x_y_n(0x8, x as int, y as int, 0x5),
        OpCode::ShrVxVy(x, y) => lemma_fields_x_y_n(0x8, x as int, y as int, 0x6),
        OpCode::SubnVxVy(x, y) => lemma_fields_x_y_n(0x8, x as int, y as int, 0x7),
        OpCode::ShlVxVy(x, y) => lemma_fields_x_y_n(0x8, x as int, y as int, 0xE),
        OpCode::SneVxVy(x, y) => lemma_fields_x_y_n(0x9, x as int, y as int, 0),
        OpCode::LdINn(nnn) => lemma_fields_nnn(0xA, nnn as int),
        OpCode::JmpV0Nnn(nnn) => lemma_fields_nnn(0xB, nnn as int),
        OpCode::RndVxNn(x, nn) => lemma_fields_x_nn(0xC, x as int, nn as int),
        OpCode::DrawVxVyN(x, y, n) => lemma_fields_x_y_n(0xD, x as int, y as int, n as int),
        OpCode::SkpVx(x) => lemma_fields_x_nn(0xE, x as int, 0x9E),
        OpCode::SknpVx(x) => lemma_fields_x_nn(0xE, x as int, 0xA1),
        OpCode::LdVxDt(x) => lemma_fields_x_nn(0xF, x as int, 0x07),
        OpCode::LdVxK(x) => lemma_fields_x_nn(0xF, x as int, 0x0A),
        OpCode::LdDtVx(x) => lemma_fields_x_nn(0xF, x as int, 0x15),
        OpCode::LdStVx(x) => lemma_fields_x_nn(0xF, x as int, 0x18),
        OpCode::AddIVx(x) => lemma_fields_x_nn(0xF, x as int, 0x1E),
        OpCode::LdFVx(x) => lemma_fields_x_nn(0xF, x as int, 0x29),
        OpCode::LdBVx(x) => lemma_fields_x_nn(0xF, x as int, 0x33),
        OpCode::LdIVx(x) => lemma_fields_x_nn(0xF, x as int, 0x55),
        OpCode::LdVxI(x) => lemma_fields_x_nn(0xF, x as int, 0x65),
    }
}

} // verus!
