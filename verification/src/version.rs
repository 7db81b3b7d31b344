//! Versions of Python.

use crate::module_name::chars_of;
use vstd::prelude::*;

verus! {

/// A version of Python.
#[derive(Debug, PartialEq, Eq, Structural, Copy, Clone)]
pub struct PythonVersion {
    pub major: u32,
    pub minor: u32,
    pub micro: u32,
}

/// Why a version cannot be analyzed for.
#[derive(Debug, PartialEq, Eq, Structural, Copy, Clone)]
pub enum VersionError {
    /// The text is not that of a version.
    Invalid,
    /// The version is older than 3.12, or another language.
    Unsupported,
}

/// The version that sources are taken to be written for.
pub fn default_python_version() -> (res: PythonVersion)
    ensures
        res == (PythonVersion { major: 3, minor: 14, micro: 0 }),
{
    PythonVersion { major: 3, minor: 14, micro: 0 }
}

/// A character is a decimal digit.
pub open spec fn is_digit(c: char) -> bool {
    '0' as int <= c as int <= '9' as int
}

/// The number that decimal digits stand for, where they are some.
pub open spec fn number(digits: Seq<char>) -> Option<int>
    decreases digits.len(),
{
    if digits.len() == 0 || !is_digit(digits.last()) {
        None
    } else if digits.len() == 1 {
        Some(digits.last() as int - '0' as int)
    } else {
        match number(digits.drop_last()) {
            Some(n) => Some(10 * n + (digits.last() as int - '0' as int)),
            None => None,
        }
    }
}

/// The number that decimal digits stand for, where it is not too large.
pub open spec fn small_number(digits: Seq<char>) -> Option<u32> {
    match number(digits) {
        Some(n) => if n <= u32::MAX {
            Some(n as u32)
        } else {
            None
        },
        None => None,
    }
}

/// The parts of a text between its dots.
pub open spec fn dot_parts(text: Seq<char>) -> Seq<Seq<char>>
    decreases text.len(),
{
    let d = crate::module_name::first_dot(text);
    if 0 <= d < text.len() {
        seq![text.take(d)] + dot_parts(text.skip(d + 1))
    } else {
        seq![text]
    }
}

/// The version that a text denotes: one to three numbers with dots between them.
pub open spec fn version_in(text: Seq<char>) -> Option<PythonVersion> {
    let parts = dot_parts(text);
    if parts.len() > 3 {
        None
    } else {
        let minor = if parts.len() > 1 {
            small_number(parts[1])
        } else {
            Some(0)
        };
        let micro = if parts.len() > 2 {
            small_number(parts[2])
        } else {
            Some(0)
        };
        match (small_number(parts[0]), minor, micro) {
            (Some(major), Some(minor), Some(micro)) => Some(PythonVersion { major, minor, micro }),
            _ => None,
        }
    }
}

pub fn read_number(digits: &str) -> (res: Option<u32>)
    ensures
        res == small_number(digits@),
{
    let chars = chars_of(digits);
    if chars.len() == 0 {
        return None;
    }
    let mut value: u64 = 0;
    let mut large = false;
    for i in 0..chars.len()
        invariant
            chars@ == digits@,
            i == 0 ==> value == 0 && !large,
            i > 0 ==> (number(chars@.take(i as int)) matches Some(n) && (if large {
                n > u32::MAX
            } else {
                n == value && value <= u32::MAX
            })),
    {
        let c = chars[i];
        proof {
            assert(chars@.take(i + 1).drop_last() =~= chars@.take(i as int));
            assert(chars@.take(i + 1).last() == c);
            if i == 0 {
                assert(chars@.take(1).len() == 1);
            }
        }
        if c < '0' || c > '9' {
            proof {
                lemma_not_number(chars@, i as int);
            }
            return None;
        }
        let d: u64 = c as u64 - '0' as u64;
        if !large {
            value = 10 * value + d;
            if value > 0xffff_ffff {
                large = true;
                value = 0;
            }
        }
    }
    proof {
        assert(chars@.take(chars@.len() as int) =~= chars@);
    }
    if large {
        None
    } else {
        Some(value as u32)
    }
}

/// A text with something else than digits is no number.
proof fn lemma_not_number(digits: Seq<char>, i: int)
    requires
        0 <= i < digits.len(),
        !is_digit(digits[i]),
    ensures
        number(digits) is None,
    decreases digits.len(),
{
    if i < digits.len() - 1 {
        lemma_not_number(digits.drop_last(), i);
    }
}

proof fn lemma_parts(text: Seq<char>)
    ensures
        dot_parts(text).len() >= 1,
    decreases text.len(),
{
}

/// The parts of a text between its dots.
fn split_dots(text: &str) -> (res: Vec<String>)
    ensures
        res.deep_view() == dot_parts(text@),
    decreases text@.len(),
{
    let mut res: Vec<String> = Vec::new();
    match (
        crate::module_name::before_first_dot(text),
        crate::module_name::after_first_dot(text),
    ) {
        (Some(first), Some(rest)) => {
            proof {
                crate::module_name::lemma_first_dot(text@);
            }
            let mut more: Vec<String> = split_dots(rest.as_str());
            let ghost tail = more.deep_view();
            res.push(first);
            res.append(&mut more);
            proof {
                assert(res.deep_view() =~= seq![first@] + tail);
            }
            res
        },
        _ => {
            res.push(crate::module_name::ModuleName::from_str(text).into_string());
            proof {
                crate::module_name::lemma_first_dot(text@);
                assert(res.deep_view() =~= seq![text@]);
            }
            res
        },
    }
}

/// Reads a version. It has to be at least 3.12.
pub fn parse_python_version(s: &str) -> (res: Result<PythonVersion, VersionError>)
    ensures
        res == (match version_in(s@) {
            Some(version) => if version.major == 3 && version.minor >= 12 {
                Ok(version)
            } else {
                Err(VersionError::Unsupported)
            },
            None => Err(VersionError::Invalid),
        }),
{
    let parts = split_dots(s);
    let ghost all = parts.deep_view();
    proof {
        lemma_parts(s@);
    }
    if parts.len() > 3 {
        return Err(VersionError::Invalid);
    }
    let major = read_number(parts[0].as_str());
    let minor: Option<u32> = if parts.len() > 1 {
        read_number(parts[1].as_str())
    } else {
        Some(0)
    };
    let micro: Option<u32> = if parts.len() > 2 {
        read_number(parts[2].as_str())
    } else {
        Some(0)
    };
    match (major, minor, micro) {
        (Some(major), Some(minor), Some(micro)) => if major != 3 || minor < 12 {
            Err(VersionError::Unsupported)
        } else {
            Ok(PythonVersion { major, minor, micro })
        },
        _ => Err(VersionError::Invalid),
    }
}

impl PythonVersion {
    /// The minor number of the version of the grammar that sources are parsed by. The latest one that
    /// is known, 3.15, also stands for those that are not.
    pub open spec fn grammar(self) -> u32 {
        if self.major == 3 && 12 <= self.minor <= 15 {
            self.minor
        } else {
            15
        }
    }

    /// The minor number of the version of the grammar that sources are parsed by.
    pub fn grammar_minor(&self) -> (res: u32)
        ensures
            res == self.grammar(),
    {
        if self.major == 3 && 12 <= self.minor && self.minor <= 15 {
            self.minor
        } else {
            15
        }
    }
}

} // verus!
