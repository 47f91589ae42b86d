use vstd::prelude::*;
use vstd::string::StrSliceExecFns;

verus! {

/// Spectral class of a star, read from the first letter of its class string.
#[derive(Clone, Copy, Debug, PartialEq, Eq, Structural)]
pub enum StarType {
    O,
    B,
    A,
    F,
    G,
    K,
    M,
    Unknown,
}

/// The class named by the first character of a spectral class string.
pub open spec fn star_type_of(s: Seq<char>) -> StarType {
    if s.len() == 0 {
        StarType::Unknown
    } else if s[0] == 'O' {
        StarType::O
    } else if s[0] == 'B' {
        StarType::B
    } else if s[0] == 'A' {
        StarType::A
    } else if s[0] == 'F' {
        StarType::F
    } else if s[0] == 'G' {
        StarType::G
    } else if s[0] == 'K' {
        StarType::K
    } else if s[0] == 'M' {
        StarType::M
    } else {
        StarType::Unknown
    }
}

/// Display colour of each spectral class, as red, green and blue.
pub open spec fn star_rgb(t: StarType) -> (u8, u8, u8) {
    match t {
        StarType::O => (155, 176, 255),
        StarType::B => (170, 191, 255),
        StarType::A => (202, 215, 255),
        StarType::F => (248, 247, 255),
        StarType::G => (255, 244, 234),
        StarType::K => (255, 210, 161),
        StarType::M => (255, 204, 111),
        StarType::Unknown => (160, 160, 160),
    }
}

impl StarType {
    /// Classifies a spectral class string by its first character; anything
    /// else, the empty string included, is `Unknown`.
    pub fn from_str(s: &str) -> (r: StarType)
        ensures
            r == star_type_of(s@),
    {
        if s.unicode_len() == 0 {
            return StarType::Unknown;
        }
        let c = s.get_char(0);
        if c == 'O' {
            StarType::O
        } else if c == 'B' {
            StarType::B
        } else if c == 'A' {
            StarType::A
        } else if c == 'F' {
            StarType::F
        } else if c == 'G' {
            StarType::G
        } else if c == 'K' {
            StarType::K
        } else if c == 'M' {
            StarType::M
        } else {
            StarType::Unknown
        }
    }

    /// The display colour of this class as red, green and blue.
    pub fn rgb(&self) -> (r: (u8, u8, u8))
        ensures
            r == star_rgb(*self),
    {
        match self {
            StarType::O => (155, 176, 255),
            StarType::B => (170, 191, 255),
            StarType::A => (202, 215, 255),
            StarType::F => (248, 247, 255),
            StarType::G => (255, 244, 234),
            StarType::K => (255, 210, 161),
            StarType::M => (255, 204, 111),
            StarType::Unknown => (160, 160, 160),
        }
    }
}

/// A node of the star graph: the attributes of one system record that the
/// map shows. Its position is kept by the renderer, under the node's index.
#[derive(Clone, Debug)]
pub struct StarNode {
    pub name: String,
    pub natural_id: String,
    pub star_type: StarType,
    pub sector_id: String,
}

} // verus!
