//! ANSI escape sequence parser
//!
//! SGR (Select Graphic Rendition) sequences for colors and text
//! attributes, and the parameters of CSI sequences.

use vstd::prelude::*;
use super::color::{select_color, RgbColor, palette_color};

verus! {

/// ANSI parser state
#[derive(Clone, Copy, Debug, PartialEq, Eq, Structural)]
pub enum AnsiState {
    /// Normal text output
    Ground,
    /// After ESC character
    Escape,
    /// Inside CSI sequence (ESC [)
    Csi,
}

/// ANSI escape sequence parser
#[derive(Clone, Copy)]
pub struct AnsiParser {
    pub state: AnsiState,
    pub param_buf: [u8; 32],
    pub param_len: usize,
}

/// One step of reading CSI parameters: the parameters so far, the number
/// being read and whether it has digits.  Digits accumulate, saturating
/// at `u16::MAX`; ';' ends a parameter (an empty one is 0), up to 16.
pub open spec fn param_step(st: (Seq<u16>, u16, bool), b: u8) -> (Seq<u16>, u16, bool) {
    let (ps, v, has) = st;
    if b == 59 {
        (
            if ps.len() < 16 {
                ps.push(
                    if has {
                        v
                    } else {
                        0
                    },
                )
            } else {
                ps
            },
            0,
            false,
        )
    } else if 48 <= b <= 57 {
        let t = v * 10 + (b - 48);
        (
            ps,
            if t > u16::MAX {
                u16::MAX
            } else {
                t as u16
            },
            true,
        )
    } else {
        st
    }
}

pub open spec fn params_scan(bytes: Seq<u8>) -> (Seq<u16>, u16, bool)
    decreases bytes.len(),
{
    if bytes.len() == 0 {
        (Seq::empty(), 0, false)
    } else {
        param_step(params_scan(bytes.drop_last()), bytes.last())
    }
}

/// The parameters of a CSI sequence: `[0]` when there are none.
pub open spec fn params_of(bytes: Seq<u8>) -> Seq<u16> {
    if bytes.len() == 0 {
        seq![0u16]
    } else {
        let (ps, v, has) = params_scan(bytes);
        if ps.len() < 16 {
            ps.push(
                if has {
                    v
                } else {
                    0
                },
            )
        } else {
            ps
        }
    }
}

impl AnsiParser {
    pub fn new() -> (r: Self)
        ensures
            r.state == AnsiState::Ground,
            r.param_len == 0,
    {
        Self { state: AnsiState::Ground, param_buf: [0u8; 32], param_len: 0 }
    }

    /// Whether the sequence read so far is a DEC private one: its
    /// parameters begin with `?`.
    pub fn is_private(&self) -> (r: bool)
        requires
            self.param_len <= 32,
        ensures
            r == (self.param_len > 0 && self.param_buf[0] == 63),
    {
        self.param_len > 0 && self.param_buf[0] == 63
    }

    /// Reset parser to ground state
    pub fn reset(&mut self)
        ensures
            final(self).state == AnsiState::Ground,
            final(self).param_len == 0,
            final(self).param_buf == old(self).param_buf,
    {
        self.state = AnsiState::Ground;
        self.param_len = 0;
    }

    /// Add a byte to the parameter buffer; bytes past 32 are dropped.
    pub fn push_param(&mut self, byte: u8)
        requires
            old(self).param_len <= 32,
        ensures
            final(self).state == old(self).state,
            final(self).param_len <= 32,
            old(self).param_len < 32 ==> final(self).param_len == old(self).param_len + 1
                && final(self).param_buf@ == old(self).param_buf@.update(
                old(self).param_len as int,
                byte,
            ),
            old(self).param_len >= 32 ==> final(self).param_len == old(self).param_len
                && final(self).param_buf == old(self).param_buf,
    {
        if self.param_len < 32 {
            self.param_buf[self.param_len] = byte;
            self.param_len = self.param_len + 1;
        }
    }

    /// Parse numeric parameters from buffer: up to 16 of them, and their
    /// count.
    pub fn parse_params(&self) -> (r: ([u16; 16], usize))
        requires
            self.param_len <= 32,
        ensures
            r.1 <= 16,
            r.1 == params_of(self.param_buf@.take(self.param_len as int)).len(),
            forall|i: int|
                0 <= i < r.1 ==> r.0@[i] == params_of(self.param_buf@.take(self.param_len as int))[i],
    {
        let mut params = [0u16; 16];
        if self.param_len == 0 {
            params[0] = 0;
            return (params, 1);
        }
        let ghost bytes = self.param_buf@.take(self.param_len as int);
        let mut count: usize = 0;
        let mut value: u16 = 0;
        let mut has_value = false;
        let mut i: usize = 0;
        while i < self.param_len
            invariant
                i <= self.param_len <= 32,
                bytes == self.param_buf@.take(self.param_len as int),
                count <= 16,
                ({
                    let (ps, v, h) = params_scan(bytes.take(i as int));
                    &&& ps.len() == count
                    &&& forall|k: int| 0 <= k < count ==> params@[k] == ps[k]
                    &&& v == value
                    &&& h == has_value
                }),
            decreases self.param_len - i,
        {
            let byte = self.param_buf[i];
            proof {
                assert(bytes.take(i + 1).drop_last() =~= bytes.take(i as int));
                assert(bytes.take(i + 1).last() == byte);
            }
            if byte == 59 {
                if count < 16 {
                    params[count] = if has_value {
                        value
                    } else {
                        0
                    };
                    count = count + 1;
                }
                value = 0;
                has_value = false;
            } else if 48 <= byte && byte <= 57 {
                let m = match value.checked_mul(10) {
                    Some(m) => m,
                    None => u16::MAX,
                };
                value = m.saturating_add((byte - 48) as u16);
                has_value = true;
            }
            i = i + 1;
        }
        assert(bytes.take(i as int) =~= bytes);
        if count < 16 {
            params[count] = if has_value {
                value
            } else {
                0
            };
            count = count + 1;
        }
        (params, count)
    }
}

/// SGR (Select Graphic Rendition) action
#[derive(Clone, Copy, Debug, PartialEq, Eq, Structural)]
pub enum SgrAction {
    Reset,
    Bold,
    NoBold,
    SetFg(usize, bool),
    SetBg(usize, bool),
    SetFgRgb(RgbColor),
    SetBgRgb(RgbColor),
    ResetFg,
    ResetBg,
    NoAction,
}

/// SGR parameter processor: walks the parameters, tracking bold.
pub struct SgrProcessor<'a> {
    params: &'a [u16],
    index: usize,
    bold: bool,
}

/// A color channel limited to 255.
pub open spec fn chan255(v: u16) -> u8 {
    if v > 255 {
        255
    } else {
        v as u8
    }
}

/// The action of the SGR parameters at `i` with bold state `bold`, the
/// number of parameters it takes, and the bold state after it.
pub open spec fn sgr_step(ps: Seq<u16>, i: int, bold: bool) -> (SgrAction, int, bool) {
    let p = ps[i];
    if p == 0 {
        (SgrAction::Reset, 1, false)
    } else if p == 1 {
        (SgrAction::Bold, 1, true)
    } else if p == 2 || p == 22 {
        (SgrAction::NoBold, 1, false)
    } else if 30 <= p <= 37 {
        (SgrAction::SetFg((p - 30) as usize, bold), 1, bold)
    } else if 90 <= p <= 97 {
        (SgrAction::SetFg((p - 90) as usize, true), 1, bold)
    } else if p == 39 {
        (SgrAction::ResetFg, 1, bold)
    } else if 40 <= p <= 47 {
        (SgrAction::SetBg((p - 40) as usize, false), 1, bold)
    } else if 100 <= p <= 107 {
        (SgrAction::SetBg((p - 100) as usize, true), 1, bold)
    } else if p == 49 {
        (SgrAction::ResetBg, 1, bold)
    } else if (p == 38 || p == 48) && i + 4 < ps.len() && ps[i + 1] == 2 {
        let c = RgbColor { r: chan255(ps[i + 2]), g: chan255(ps[i + 3]), b: chan255(ps[i + 4]) };
        (
            if p == 38 {
                SgrAction::SetFgRgb(c)
            } else {
                SgrAction::SetBgRgb(c)
            },
            5,
            bold,
        )
    } else {
        (SgrAction::NoAction, 1, bold)
    }
}

fn chan(v: u16) -> (r: u8)
    ensures
        r == chan255(v),
{
    if v > 255 {
        255
    } else {
        v as u8
    }
}

impl<'a> SgrProcessor<'a> {
    pub closed spec fn params(&self) -> Seq<u16> {
        self.params@
    }

    pub closed spec fn index(&self) -> int {
        self.index as int
    }

    pub closed spec fn bold(&self) -> bool {
        self.bold
    }

    pub fn new(params: &'a [u16], bold: bool) -> (r: Self)
        ensures
            r.params() == params@,
            r.index() == 0,
            r.bold() == bold,
    {
        Self { params, index: 0, bold }
    }

    /// Get current bold state
    pub fn is_bold(&self) -> (r: bool)
        ensures
            r == self.bold(),
    {
        self.bold
    }

    /// The next action, or `None` once every parameter is used.
    pub fn next_action(&mut self) -> (r: Option<SgrAction>)
        requires
            old(self).index() <= old(self).params().len(),
        ensures
            final(self).params() == old(self).params(),
            final(self).index() <= final(self).params().len(),
            old(self).index() >= old(self).params().len() ==> r is None && final(self).index()
                == old(self).index() && final(self).bold() == old(self).bold(),
            old(self).index() < old(self).params().len() ==> {
                let (a, n, b) = sgr_step(old(self).params(), old(self).index(), old(self).bold());
                &&& r == Some(a)
                &&& final(self).index() == old(self).index() + n
                &&& final(self).bold() == b
            },
    {
        if self.index >= self.params.len() {
            return None;
        }
        let param = self.params[self.index];
        self.index = self.index + 1;
        let action = if param == 0 {
            self.bold = false;
            SgrAction::Reset
        } else if param == 1 {
            self.bold = true;
            SgrAction::Bold
        } else if param == 2 || param == 22 {
            self.bold = false;
            SgrAction::NoBold
        } else if 30 <= param && param <= 37 {
            SgrAction::SetFg((param - 30) as usize, self.bold)
        } else if 90 <= param && param <= 97 {
            SgrAction::SetFg((param - 90) as usize, true)
        } else if param == 39 {
            SgrAction::ResetFg
        } else if 40 <= param && param <= 47 {
            SgrAction::SetBg((param - 40) as usize, false)
        } else if 100 <= param && param <= 107 {
            SgrAction::SetBg((param - 100) as usize, true)
        } else if param == 49 {
            SgrAction::ResetBg
        } else if (param == 38 || param == 48) && self.params.len() >= 4 && self.index
            < self.params.len() - 3 && self.params[self.index] == 2 {
            let r = chan(self.params[self.index + 1]);
            let g = chan(self.params[self.index + 2]);
            let b = chan(self.params[self.index + 3]);
            self.index = self.index + 4;
            if param == 38 {
                SgrAction::SetFgRgb(RgbColor::new(r, g, b))
            } else {
                SgrAction::SetBgRgb(RgbColor::new(r, g, b))
            }
        } else {
            SgrAction::NoAction
        };
        Some(action)
    }
}

/// Get color from ANSI SGR code
pub fn color_from_sgr(idx: usize, bright: bool) -> (c: RgbColor)
    ensures
        c == palette_color(idx as int, bright),
{
    select_color(idx, bright)
}

} // verus!
