//! The six sample formats, named by the three letters after a file's last dot.

use vstd::prelude::*;
use vstd::string::StrSliceExecFns;

verus! {

/// A sample format: `A` formats hold one decimal value per line, `B`
/// formats hold little-endian binary elements; `S`, `F` and `D` stand for
/// 16-bit integers, 32-bit floats and 64-bit floats.
#[derive(Clone, Copy, Debug, PartialEq, Eq, Structural)]
pub enum DType {
    DSA,
    DFA,
    DDA,
    DSB,
    DFB,
    DDB,
}

/// The format that a three-letter token names, if any.
pub open spec fn dtype_of_token(t: Seq<char>) -> Option<DType> {
    if t == seq!['D', 'S', 'A'] {
        Some(DType::DSA)
    } else if t == seq!['D', 'F', 'A'] {
        Some(DType::DFA)
    } else if t == seq!['D', 'D', 'A'] {
        Some(DType::DDA)
    } else if t == seq!['D', 'S', 'B'] {
        Some(DType::DSB)
    } else if t == seq!['D', 'F', 'B'] {
        Some(DType::DFB)
    } else if t == seq!['D', 'D', 'B'] {
        Some(DType::DDB)
    } else {
        None
    }
}

/// The position of the last `.` among the first `i` characters, or `-1`
/// when there is none.
pub open spec fn last_dot(s: Seq<char>, i: int) -> int
    decreases i,
{
    if i <= 0 {
        -1
    } else if s[i - 1] == '.' {
        i - 1
    } else {
        last_dot(s, i - 1)
    }
}

/// The text after the last `.` of a file name; empty when the name has no
/// dot, so that such a name names no format.
pub open spec fn file_suffix(s: Seq<char>) -> Seq<char> {
    let d = last_dot(s, s.len() as int);
    if d < 0 {
        Seq::empty()
    } else {
        s.subrange(d + 1, s.len() as int)
    }
}

impl DType {
    /// The three letters that name the format.
    pub open spec fn token(self) -> Seq<char> {
        match self {
            DType::DSA => seq!['D', 'S', 'A'],
            DType::DFA => seq!['D', 'F', 'A'],
            DType::DDA => seq!['D', 'D', 'A'],
            DType::DSB => seq!['D', 'S', 'B'],
            DType::DFB => seq!['D', 'F', 'B'],
            DType::DDB => seq!['D', 'D', 'B'],
        }
    }

    /// Element width on disk, in bytes.
    pub open spec fn width_spec(self) -> u32 {
        match self {
            DType::DSA | DType::DSB => 2,
            DType::DFA | DType::DFB => 4,
            DType::DDA | DType::DDB => 8,
        }
    }

    /// Whether the format is text, one decimal value per line.
    pub open spec fn is_text_spec(self) -> bool {
        match self {
            DType::DSA | DType::DFA | DType::DDA => true,
            _ => false,
        }
    }

    /// The peak amplitude that samples are rescaled to before being written.
    pub open spec fn amplitude_spec(self) -> u32 {
        match self {
            DType::DSA | DType::DSB => 32767,
            _ => 10000,
        }
    }

    /// Parses the three-letter token of a format.
    pub fn from_suffix(s: &str) -> (r: Result<DType, &'static str>)
        ensures
            match r {
                Ok(d) => dtype_of_token(s@) == Some(d),
                Err(_) => dtype_of_token(s@) is None,
            },
    {
        let n = s.unicode_len();
        if n != 3 {
            return Err("invalid string");
        }
        let a = s.get_char(0);
        let b = s.get_char(1);
        let c = s.get_char(2);
        proof {
            assert(s@ =~= seq![a, b, c]);
        }
        if a != 'D' {
            return Err("invalid string");
        }
        if c == 'A' {
            if b == 'S' {
                Ok(DType::DSA)
            } else if b == 'F' {
                Ok(DType::DFA)
            } else if b == 'D' {
                Ok(DType::DDA)
            } else {
                Err("invalid string")
            }
        } else if c == 'B' {
            if b == 'S' {
                Ok(DType::DSB)
            } else if b == 'F' {
                Ok(DType::DFB)
            } else if b == 'D' {
                Ok(DType::DDB)
            } else {
                Err("invalid string")
            }
        } else {
            Err("invalid string")
        }
    }

    /// The format named by the text after the last `.` of a file name; a
    /// name without a dot names none.
    pub fn from_filename(filename: &str) -> (r: Result<DType, &'static str>)
        ensures
            match r {
                Ok(d) => dtype_of_token(file_suffix(filename@)) == Some(d),
                Err(_) => dtype_of_token(file_suffix(filename@)) is None,
            },
    {
        let n = filename.unicode_len();
        let mut i: usize = n;
        while i > 0 && filename.get_char(i - 1) != '.'
            invariant
                i <= n,
                n == filename@.len(),
                last_dot(filename@, n as int) == last_dot(filename@, i as int),
            decreases i,
        {
            i = i - 1;
        }
        if i == 0 {
            proof {
                assert(file_suffix(filename@) =~= Seq::<char>::empty());
                assert(Seq::<char>::empty().len() != seq!['D', 'S', 'A'].len());
            }
            return Err("invalid file name");
        }
        let suffix = filename.substring_char(i, n);
        proof {
            assert(last_dot(filename@, i as int) == i - 1);
        }
        DType::from_suffix(suffix)
    }

    /// The three letters that name the format.
    pub fn name(&self) -> (r: &'static str)
        ensures
            r@ == self.token(),
    {
        let r = match *self {
            DType::DSA => "DSA",
            DType::DFA => "DFA",
            DType::DDA => "DDA",
            DType::DSB => "DSB",
            DType::DFB => "DFB",
            DType::DDB => "DDB",
        };
        proof {
            reveal_strlit("DSA");
            reveal_strlit("DFA");
            reveal_strlit("DDA");
            reveal_strlit("DSB");
            reveal_strlit("DFB");
            reveal_strlit("DDB");
        }
        r
    }

    /// Element width on disk, in bytes: 2, 4 or 8.
    pub fn byte_width(&self) -> (r: u32)
        ensures
            r == self.width_spec(),
    {
        match *self {
            DType::DSA | DType::DSB => 2,
            DType::DFA | DType::DFB => 4,
            DType::DDA | DType::DDB => 8,
        }
    }

    /// Element width, in bits: 16, 32 or 64.
    pub fn bits_width(&self) -> (r: u32)
        ensures
            r == 8 * self.width_spec(),
    {
        match *self {
            DType::DSA | DType::DSB => 16,
            DType::DFA | DType::DFB => 32,
            DType::DDA | DType::DDB => 64,
        }
    }

    /// Whether the format is text, one decimal value per line.
    pub fn is_text(&self) -> (r: bool)
        ensures
            r == self.is_text_spec(),
    {
        match *self {
            DType::DSA | DType::DFA | DType::DDA => true,
            DType::DSB | DType::DFB | DType::DDB => false,
        }
    }

    /// The peak amplitude that samples are rescaled to before being written:
    /// 32767 for the 16-bit formats, 10000 for the others.
    pub fn amplitude(&self) -> (r: u32)
        ensures
            r == self.amplitude_spec(),
    {
        match *self {
            DType::DSA | DType::DSB => 32767,
            DType::DFA | DType::DFB | DType::DDA | DType::DDB => 10000,
        }
    }
}

/// Each format's three letters name that format and no other, so parsing
/// a format's name gives the format back.
pub proof fn lemma_token_round_trip(d: DType)
    ensures
        dtype_of_token(d.token()) == Some(d),
{
    assert(seq!['D', 'S', 'A'] != seq!['D', 'F', 'A'] && seq!['D', 'S', 'A'] != seq!['D', 'D', 'A']
        && seq!['D', 'F', 'A'] != seq!['D', 'D', 'A']) by {
        assert(seq!['D', 'S', 'A'][1] != seq!['D', 'F', 'A'][1]);
        assert(seq!['D', 'S', 'A'][1] != seq!['D', 'D', 'A'][1]);
        assert(seq!['D', 'F', 'A'][1] != seq!['D', 'D', 'A'][1]);
    }
    assert(seq!['D', 'S', 'B'] != seq!['D', 'S', 'A'] && seq!['D', 'S', 'B'] != seq!['D', 'F', 'A']
        && seq!['D', 'S', 'B'] != seq!['D', 'D', 'A']) by {
        assert(seq!['D', 'S', 'B'][2] != seq!['D', 'S', 'A'][2]);
        assert(seq!['D', 'S', 'B'][2] != seq!['D', 'F', 'A'][2]);
        assert(seq!['D', 'S', 'B'][2] != seq!['D', 'D', 'A'][2]);
    }
    assert(seq!['D', 'F', 'B'] != seq!['D', 'S', 'A'] && seq!['D', 'F', 'B'] != seq!['D', 'F', 'A']
        && seq!['D', 'F', 'B'] != seq!['D', 'D', 'A'] && seq!['D', 'F', 'B'] != seq!['D', 'S', 'B'])
        by {
        assert(seq!['D', 'F', 'B'][2] != seq!['D', 'S', 'A'][2]);
        assert(seq!['D', 'F', 'B'][2] != seq!['D', 'F', 'A'][2]);
        assert(seq!['D', 'F', 'B'][2] != seq!['D', 'D', 'A'][2]);
        assert(seq!['D', 'F', 'B'][1] != seq!['D', 'S', 'B'][1]);
    }
    assert(seq!['D', 'D', 'B'] != seq!['D', 'S', 'A'] && seq!['D', 'D', 'B'] != seq!['D', 'F', 'A']
        && seq!['D', 'D', 'B'] != seq!['D', 'D', 'A'] && seq!['D', 'D', 'B'] != seq!['D', 'S', 'B']
        && seq!['D', 'D', 'B'] != seq!['D', 'F', 'B']) by {
        assert(seq!['D', 'D', 'B'][2] != seq!['D', 'S', 'A'][2]);
        assert(seq!['D', 'D', 'B'][2] != seq!['D', 'F', 'A'][2]);
        assert(seq!['D', 'D', 'B'][2] != seq!['D', 'D', 'A'][2]);
        assert(seq!['D', 'D', 'B'][1] != seq!['D', 'S', 'B'][1]);
        assert(seq!['D', 'D', 'B'][1] != seq!['D', 'F', 'B'][1]);
    }
}

impl std::str::FromStr for DType {
    type Err = &'static str;

    fn from_str(s: &str) -> (r: Result<DType, &'static str>)
        ensures
            match r {
                Ok(d) => dtype_of_token(s@) == Some(d),
                Err(_) => dtype_of_token(s@) is None,
            },
    {
        DType::from_suffix(s)
    }
}

} // verus!
