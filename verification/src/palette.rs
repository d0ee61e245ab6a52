//! The fixed palette of display colours.

use vstd::prelude::*;

verus! {

/// One entry of the palette. Every colour has a terminal control sequence
/// and an RGB pixel value; `Reset` is the default colour.
#[derive(Clone, Copy, Debug, PartialEq, Eq, Structural)]
pub enum Color {
    Error,
    Reset,
    Gray,
    Red,
    LightGreen,
    DarkGreen,
    Yellow,
    Blue,
    DarkBlue,
    Pink,
    Cyan,
    White,
}

impl Color {
    /// The parameter bytes of the control sequence, between `ESC [` and `m`.
    pub open spec fn ansi_params(self) -> Seq<u8> {
        match self {
            Color::Error => seq![51u8, 49u8, 59u8, 52u8],
            Color::Reset => seq![48u8],
            Color::Gray => seq![51u8, 48u8],
            Color::Red => seq![51u8, 49u8],
            Color::LightGreen => seq![51u8, 50u8],
            Color::DarkGreen => seq![51u8, 50u8, 59u8, 49u8],
            Color::Yellow => seq![51u8, 51u8],
            Color::Blue => seq![51u8, 52u8],
            Color::DarkBlue => seq![51u8, 52u8, 59u8, 49u8],
            Color::Pink => seq![51u8, 53u8],
            Color::Cyan => seq![51u8, 54u8],
            Color::White => seq![51u8, 55u8],
        }
    }

    /// The whole control sequence: `ESC [ params m`.
    pub open spec fn ansi_code(self) -> Seq<u8> {
        seq![27u8, 91u8] + self.ansi_params() + seq![109u8]
    }

    /// The pixel value as (red, green, blue).
    pub open spec fn rgb_spec(self) -> (u8, u8, u8) {
        match self {
            Color::Error => (0xffu8, 0x00u8, 0x00u8),
            Color::Reset => (0xb9u8, 0xbbu8, 0xbeu8),
            Color::Gray => (0x4fu8, 0x54u8, 0x5cu8),
            Color::Red => (0xdcu8, 0x32u8, 0x2fu8),
            Color::LightGreen => (0xb5u8, 0xceu8, 0xa8u8),
            Color::DarkGreen => (0x6au8, 0x99u8, 0x55u8),
            Color::Yellow => (0xb5u8, 0x89u8, 0x00u8),
            Color::Blue => (0x26u8, 0x8bu8, 0xd2u8),
            Color::DarkBlue => (0x56u8, 0x9cu8, 0xd6u8),
            Color::Pink => (0xd3u8, 0x36u8, 0x82u8),
            Color::Cyan => (0x2au8, 0xa1u8, 0x98u8),
            Color::White => (0xffu8, 0xffu8, 0xffu8),
        }
    }

    /// Appends the colour's control sequence to `out`.
    pub fn push_ansi(self, out: &mut Vec<u8>)
        ensures
            final(out)@ == old(out)@ + self.ansi_code(),
    {
        out.push(27u8);
        out.push(91u8);
        match self {
            Color::Error => {
                out.push(51u8);
                out.push(49u8);
                out.push(59u8);
                out.push(52u8);
            },
            Color::Reset => {
                out.push(48u8);
            },
            Color::Gray => {
                out.push(51u8);
                out.push(48u8);
            },
            Color::Red => {
                out.push(51u8);
                out.push(49u8);
            },
            Color::LightGreen => {
                out.push(51u8);
                out.push(50u8);
            },
            Color::DarkGreen => {
                out.push(51u8);
                out.push(50u8);
                out.push(59u8);
                out.push(49u8);
            },
            Color::Yellow => {
                out.push(51u8);
                out.push(51u8);
            },
            Color::Blue => {
                out.push(51u8);
                out.push(52u8);
            },
            Color::DarkBlue => {
                out.push(51u8);
                out.push(52u8);
                out.push(59u8);
                out.push(49u8);
            },
            Color::Pink => {
                out.push(51u8);
                out.push(53u8);
            },
            Color::Cyan => {
                out.push(51u8);
                out.push(54u8);
            },
            Color::White => {
                out.push(51u8);
                out.push(55u8);
            },
        }
        out.push(109u8);
        assert(out@ =~= old(out)@ + self.ansi_code());
    }

    /// The colour's control sequence as bytes.
    pub fn ansi(self) -> (code: Vec<u8>)
        ensures
            code@ == self.ansi_code(),
    {
        let mut code: Vec<u8> = Vec::new();
        self.push_ansi(&mut code);
        assert(code@ =~= self.ansi_code());
        code
    }

    /// The colour's pixel value as (red, green, blue).
    pub fn rgb(self) -> (px: (u8, u8, u8))
        ensures
            px == self.rgb_spec(),
    {
        match self {
            Color::Error => (0xffu8, 0x00u8, 0x00u8),
            Color::Reset => (0xb9u8, 0xbbu8, 0xbeu8),
            Color::Gray => (0x4fu8, 0x54u8, 0x5cu8),
            Color::Red => (0xdcu8, 0x32u8, 0x2fu8),
            Color::LightGreen => (0xb5u8, 0xceu8, 0xa8u8),
            Color::DarkGreen => (0x6au8, 0x99u8, 0x55u8),
            Color::Yellow => (0xb5u8, 0x89u8, 0x00u8),
            Color::Blue => (0x26u8, 0x8bu8, 0xd2u8),
            Color::DarkBlue => (0x56u8, 0x9cu8, 0xd6u8),
            Color::Pink => (0xd3u8, 0x36u8, 0x82u8),
            Color::Cyan => (0x2au8, 0xa1u8, 0x98u8),
            Color::White => (0xffu8, 0xffu8, 0xffu8),
        }
    }
}

} // verus!
