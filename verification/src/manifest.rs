//! Lists of the caches that are brought together.

use crate::source_map::{pieces, split};
use crate::text::strings;
use vstd::prelude::*;

verus! {

/// A line without the carriage return at its end.
pub open spec fn without_return(line: Seq<char>) -> Seq<char> {
    if line.len() > 0 && line.last() == '\r' {
        line.drop_last()
    } else {
        line
    }
}

/// The line that a piece between two line feeds is. A carriage return in front of a line feed is no
/// part of the line; at the end of the text it is.
pub open spec fn line_at(parts: Seq<Seq<char>>, i: int) -> Seq<char> {
    if i < parts.len() - 1 {
        without_return(parts[i])
    } else {
        parts[i]
    }
}

/// The lines among the first `n` pieces of a text that are not empty.
pub open spec fn filled_lines(parts: Seq<Seq<char>>, n: int) -> Seq<Seq<char>>
    decreases n,
{
    if n <= 0 {
        Seq::empty()
    } else {
        let before = filled_lines(parts, n - 1);
        if line_at(parts, n - 1).len() > 0 {
            before.push(line_at(parts, n - 1))
        } else {
            before
        }
    }
}

/// The paths that a manifest lists, one to a line.
pub open spec fn listed_paths(manifest: Seq<char>) -> Seq<Seq<char>> {
    let parts = pieces(manifest, '\n');
    filled_lines(parts, parts.len() as int)
}

/// Reads the paths that a manifest lists, one to a line.
pub fn cache_paths(manifest: &str) -> (res: Vec<String>)
    ensures
        strings(res@) == listed_paths(manifest@),
{
    let parts = split(manifest, '\n');
    let ghost all = strings(parts@);
    let mut res: Vec<String> = Vec::new();
    proof {
        assert(strings(res@) =~= filled_lines(all, 0));
    }
    for i in 0..parts.len()
        invariant
            all == strings(parts@),
            strings(res@) == filled_lines(all, i as int),
    {
        let chars = crate::module_name::chars_of(parts[i].as_str());
        let mut end: usize = chars.len();
        proof {
            assert(all[i as int] == parts@[i as int]@);
        }
        if i < parts.len() - 1 && end > 0 && chars[end - 1] == '\r' {
            end = end - 1;
            proof {
                assert(all[i as int].drop_last() =~= chars@.subrange(0, end as int));
            }
        } else {
            proof {
                assert(all[i as int] =~= chars@.subrange(0, end as int));
            }
        }
        if end > 0 {
            let ghost before = strings(res@);
            res.push(crate::module_name::string_of(&chars, 0, end));
            proof {
                assert(strings(res@) =~= before.push(line_at(all, i as int)));
            }
        }
    }
    res
}

} // verus!
