//! Pieces of text.

use vstd::prelude::*;
use vstd::string::*;

verus! {

/// A decimal digit.
pub open spec fn digit(d: nat) -> char {
    if d == 0 {
        '0'
    } else if d == 1 {
        '1'
    } else if d == 2 {
        '2'
    } else if d == 3 {
        '3'
    } else if d == 4 {
        '4'
    } else if d == 5 {
        '5'
    } else if d == 6 {
        '6'
    } else if d == 7 {
        '7'
    } else if d == 8 {
        '8'
    } else {
        '9'
    }
}

/// A number in decimal notation.
pub open spec fn decimal(n: nat) -> Seq<char>
    decreases n,
{
    if n < 10 {
        seq![digit(n)]
    } else {
        decimal(n / 10).push(digit(n % 10))
    }
}

fn digit_char(d: u64) -> (res: char)
    requires
        d < 10,
    ensures
        res == digit(d as nat),
{
    if d == 0 {
        '0'
    } else if d == 1 {
        '1'
    } else if d == 2 {
        '2'
    } else if d == 3 {
        '3'
    } else if d == 4 {
        '4'
    } else if d == 5 {
        '5'
    } else if d == 6 {
        '6'
    } else if d == 7 {
        '7'
    } else if d == 8 {
        '8'
    } else {
        '9'
    }
}

/// A number in decimal notation.
pub fn decimal_text(n: u64) -> (res: String)
    ensures
        res@ == decimal(n as nat),
    decreases n,
{
    if n < 10 {
        let mut res = String::new();
        res.push(digit_char(n));
        proof {
            assert(res@ =~= seq![digit(n as nat)]);
        }
        res
    } else {
        let mut res = decimal_text(n / 10);
        res.push(digit_char(n % 10));
        res
    }
}

/// Texts with another between them.
pub open spec fn joined(parts: Seq<Seq<char>>, separator: Seq<char>) -> Seq<char>
    decreases parts.len(),
{
    if parts.len() == 0 {
        Seq::empty()
    } else if parts.len() == 1 {
        parts[0]
    } else {
        joined(parts.drop_last(), separator) + separator + parts.last()
    }
}

/// What a list of texts is.
pub open spec fn strings(parts: Seq<String>) -> Seq<Seq<char>> {
    parts.map_values(|s: String| s@)
}

/// Texts with another between them.
pub fn join(parts: &Vec<String>, separator: &str) -> (res: String)
    ensures
        res@ == joined(strings(parts@), separator@),
{
    let mut res = String::new();
    let ghost all = strings(parts@);
    proof {
        assert(all.take(0) =~= Seq::empty());
    }
    for i in 0..parts.len()
        invariant
            all == strings(parts@),
            res@ == joined(all.take(i as int), separator@),
    {
        proof {
            assert(all.take(i + 1).drop_last() =~= all.take(i as int));
            assert(all.take(i + 1).last() == all[i as int]);
        }
        if i > 0 {
            res.append(separator);
        }
        res.append(parts[i].as_str());
        proof {
            if i == 0 {
                assert(all.take(1)[0] == all[0]);
                assert(res@ =~= all[0]);
            } else {
                assert(res@ =~= joined(all.take(i as int), separator@) + separator@ + all[i as int]);
            }
        }
    }
    proof {
        assert(all.take(all.len() as int) =~= all);
    }
    res
}

/// The number of line feeds in some bytes.
pub open spec fn line_feeds(bytes: Seq<u8>) -> nat
    decreases bytes.len(),
{
    if bytes.len() == 0 {
        0
    } else {
        line_feeds(bytes.drop_last()) + (if bytes.last() == 10 {
            1nat
        } else {
            0nat
        })
    }
}

/// The line of a text in which a byte stands, counted from one.
pub open spec fn line_of(text: Seq<char>, offset: int) -> nat {
    let bytes = vstd::utf8::encode_utf8(text);
    line_feeds(
        bytes.take(
            if offset < bytes.len() {
                offset
            } else {
                bytes.len() as int
            },
        ),
    ) + 1
}

/// The line of a text in which a byte stands, counted from one.
pub fn line_number(text: &str, offset: u32) -> (res: u64)
    ensures
        res == line_of(text@, offset as int),
{
    let bytes = text.as_bytes();
    let end: usize = if (offset as usize) < bytes.len() {
        offset as usize
    } else {
        bytes.len()
    };
    let mut count: usize = 0;
    let ghost all = bytes@;
    proof {
        assert(all.take(0) =~= Seq::empty());
    }
    for i in 0..end
        invariant
            all == bytes@,
            end <= all.len(),
            end <= u32::MAX,
            count <= i,
            count == line_feeds(all.take(i as int)),
    {
        proof {
            assert(all.take(i + 1).drop_last() =~= all.take(i as int));
            assert(all.take(i + 1).last() == all[i as int]);
        }
        if bytes[i] == 10 {
            count = count + 1;
        }
    }
    proof {
        assert(all == vstd::utf8::encode_utf8(text@));
    }
    count as u64 + 1
}

/// The number of bytes that the first characters of a text take up.
pub open spec fn offset_of(text: Seq<char>, i: int) -> nat {
    vstd::utf8::encode_utf8(text.take(i)).len()
}

/// Characters of a text take up the bytes from one place to another.
pub open spec fn spans(text: Seq<char>, start: int, end: int, i: int, j: int) -> bool {
    0 <= i <= j <= text.len() && offset_of(text, i) == start && offset_of(text, j) == end
}

/// The characters of a text that take up the bytes from one place to another, where there are such.
pub open spec fn piece(text: Seq<char>, start: int, end: int) -> Option<Seq<char>> {
    if exists|i: int, j: int| #[trigger] spans(text, start, end, i, j) {
        let (i, j) = choose|i: int, j: int| #[trigger] spans(text, start, end, i, j);
        Some(text.subrange(i, j))
    } else {
        None
    }
}

/// The bytes of a text with one more character.
proof fn lemma_encode_push(text: Seq<char>, c: char)
    ensures
        vstd::utf8::encode_utf8(text.push(c)) == vstd::utf8::encode_utf8(text)
            + vstd::utf8::encode_scalar(c as u32),
    decreases text.len(),
{
    if text.len() == 0 {
        assert(text.push(c).drop_first() =~= Seq::empty());
        assert(vstd::utf8::encode_utf8(text.push(c).drop_first()) =~= Seq::empty());
        assert(vstd::utf8::encode_utf8(text.push(c)) =~= vstd::utf8::encode_utf8(text)
            + vstd::utf8::encode_scalar(c as u32));
    } else {
        lemma_encode_push(text.drop_first(), c);
        assert(text.push(c).drop_first() =~= text.drop_first().push(c));
        assert(vstd::utf8::encode_utf8(text.push(c)) =~= vstd::utf8::encode_utf8(text)
            + vstd::utf8::encode_scalar(c as u32));
    }
}

/// One more character takes up from one to four bytes more.
proof fn lemma_offset_next(text: Seq<char>, i: int)
    requires
        0 <= i < text.len(),
    ensures
        offset_of(text, i + 1) == offset_of(text, i) + vstd::utf8::encode_scalar(text[i] as u32).len(),
        1 <= vstd::utf8::encode_scalar(text[i] as u32).len() <= 4,
{
    assert(text.take(i + 1) =~= text.take(i).push(text[i]));
    lemma_encode_push(text.take(i), text[i]);
}

/// More characters take up more bytes.
proof fn lemma_offset_grows(text: Seq<char>, i: int, j: int)
    requires
        0 <= i < j <= text.len(),
    ensures
        offset_of(text, i) < offset_of(text, j),
    decreases j,
{
    lemma_offset_next(text, j - 1);
    if i < j - 1 {
        lemma_offset_grows(text, i, j - 1);
    }
}

/// The number of characters that take up the first bytes of a text.
fn find_offset(chars: &Vec<char>, offset: u32) -> (res: Option<usize>)
    ensures
        match res {
            Some(i) => i <= chars@.len() && offset_of(chars@, i as int) == offset,
            None => forall|i: int| 0 <= i <= chars@.len() ==> #[trigger] offset_of(chars@, i) != offset,
        },
{
    let ghost text = chars@;
    let mut i: usize = 0;
    let mut at: u64 = 0;
    proof {
        assert(text.take(0) =~= Seq::empty());
    }
    while i < chars.len() && at < offset as u64
        invariant
            text == chars@,
            i <= text.len(),
            at == offset_of(text, i as int),
            forall|k: int| 0 <= k < i ==> #[trigger] offset_of(text, k) < offset,
        decreases text.len() - i,
    {
        let c = chars[i] as u32;
        proof {
            lemma_offset_next(text, i as int);
            vstd::utf8::char_is_scalar(text[i as int]);
        }
        let width: u64 = if c < 0x80 {
            1
        } else if c < 0x800 {
            2
        } else if c < 0x10000 {
            3
        } else {
            4
        };
        at = at + width;
        i = i + 1;
    }
    if at == offset as u64 {
        Some(i)
    } else {
        proof {
            assert forall|k: int| 0 <= k <= text.len() implies #[trigger] offset_of(text, k) != offset by {
                if k > i {
                    lemma_offset_grows(text, i as int, k);
                }
            }
        }
        None
    }
}

/// The characters of a text that take up the bytes from one place to another, where there are such.
pub fn piece_at(text: &str, start: u32, end: u32) -> (res: Option<String>)
    ensures
        match res {
            Some(s) => piece(text@, start as int, end as int) == Some(s@),
            None => piece(text@, start as int, end as int) is None,
        },
{
    let chars = crate::module_name::chars_of(text);
    match (find_offset(&chars, start), find_offset(&chars, end)) {
        (Some(i), Some(j)) => {
            if i <= j {
                proof {
                    assert(spans(text@, start as int, end as int, i as int, j as int));
                    assert forall|a: int, b: int| #[trigger]
                        spans(text@, start as int, end as int, a, b) implies a == i && b == j by {
                        if a < i {
                            lemma_offset_grows(text@, a, i as int);
                        } else if i < a {
                            lemma_offset_grows(text@, i as int, a);
                        }
                        if b < j {
                            lemma_offset_grows(text@, b, j as int);
                        } else if j < b {
                            lemma_offset_grows(text@, j as int, b);
                        }
                    }
                }
                Some(crate::module_name::string_of(&chars, i, j))
            } else {
                proof {
                    lemma_offset_grows(text@, j as int, i as int);
                    assert forall|a: int, b: int| !#[trigger]
                        spans(text@, start as int, end as int, a, b) by {
                        if 0 <= a < b <= text@.len() {
                            lemma_offset_grows(text@, a, b);
                        }
                    }
                }
                None
            }
        },
        _ => None,
    }
}

} // verus!
