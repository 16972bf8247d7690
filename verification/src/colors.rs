//! The colour schemes of the monitor.
use vstd::prelude::*;

verus! {

/// A colour as its red, green and blue parts.
#[derive(Clone, Copy, Debug, PartialEq, Eq, Structural)]
pub struct Rgb(pub u8, pub u8, pub u8);

/// Colours to print parts of the monitor in.
#[derive(Clone, Copy, Debug, PartialEq, Eq, Structural)]
pub struct Colors {
    pub temp: Rgb,
    pub cpu: Rgb,
    pub mem: Rgb,
    pub uptime: Rgb,
}

/// Every part in one colour.
pub open spec fn uniform(c: Rgb) -> Colors {
    Colors { temp: c, cpu: c, mem: c, uptime: c }
}

/// The standard scheme: yellow temperatures, green CPU load, magenta
/// memory and cyan uptime.
pub open spec fn standard_scheme() -> Colors {
    Colors {
        temp: Rgb(255, 255, 0),
        cpu: Rgb(0, 220, 0),
        mem: Rgb(255, 0, 255),
        uptime: Rgb(0, 230, 230),
    }
}

/// The scheme that a colour letter selects: 'w' white, 'b' black, anything
/// else the standard scheme.
pub open spec fn scheme(color: char) -> Colors {
    if color == 'w' {
        uniform(Rgb(255, 255, 255))
    } else if color == 'b' {
        uniform(Rgb(0, 0, 0))
    } else {
        standard_scheme()
    }
}

impl Colors {
    /// The scheme that `color` selects.
    pub fn new(color: char) -> (c: Colors)
        ensures
            c == scheme(color),
    {
        match color {
            'w' => Colors {
                temp: Rgb(255, 255, 255),
                cpu: Rgb(255, 255, 255),
                mem: Rgb(255, 255, 255),
                uptime: Rgb(255, 255, 255),
            },
            'b' => Colors { temp: Rgb(0, 0, 0), cpu: Rgb(0, 0, 0), mem: Rgb(0, 0, 0), uptime: Rgb(0, 0, 0) },
            _ => Colors {
                temp: Rgb(255, 255, 0),
                cpu: Rgb(0, 220, 0),
                mem: Rgb(255, 0, 255),
                uptime: Rgb(0, 230, 230),
            },
        }
    }
}

/// A letter that names no scheme selects the same colours as 's', the
/// letter of the standard scheme.
pub proof fn lemma_unknown_letter_is_standard(color: char)
    requires
        color != 'w',
        color != 'b',
    ensures
        scheme(color) == scheme('s'),
{
}

} // verus!
