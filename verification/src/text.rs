//! Rendering of numbers and lists in messages.

use vstd::prelude::*;

verus! {

/// The character of a decimal digit.
pub open spec fn digit(d: nat) -> char {
    if d == 0 {
        '0'
    } else if d == 1 {
        '1'
    } else if d == 2 {
        '2'
    } else if d == 3 {
        '3'
    } else if d == 4 {
        '4'
    } else if d == 5 {
        '5'
    } else if d == 6 {
        '6'
    } else if d == 7 {
        '7'
    } else if d == 8 {
        '8'
    } else {
        '9'
    }
}

/// The decimal digits of `n`, most significant first, without leading zeros.
pub open spec fn decimal(n: nat) -> Seq<char>
    decreases n,
{
    if n < 10 {
        seq![digit(n)]
    } else {
        decimal(n / 10).push(digit(n % 10))
    }
}

/// The decimal digits of every entry, separated by a comma and a space.
pub open spec fn comma_list(s: Seq<usize>) -> Seq<char>
    decreases s.len(),
{
    if s.len() == 0 {
        Seq::empty()
    } else if s.len() == 1 {
        decimal(s[0] as nat)
    } else {
        comma_list(s.drop_last()) + ", "@ + decimal(s.last() as nat)
    }
}

/// A bracketed list: `[2, 3, 4]`.
pub open spec fn bracketed(s: Seq<usize>) -> Seq<char> {
    "["@ + comma_list(s) + "]"@
}

fn append_digit(text: &mut String, d: u64)
    requires
        d < 10,
    ensures
        final(text)@ == old(text)@.push(digit(d as nat)),
{
    proof {
        reveal_strlit("0");
        reveal_strlit("1");
        reveal_strlit("2");
        reveal_strlit("3");
        reveal_strlit("4");
        reveal_strlit("5");
        reveal_strlit("6");
        reveal_strlit("7");
        reveal_strlit("8");
        reveal_strlit("9");
    }
    let mark: &str = if d == 0 {
        "0"
    } else if d == 1 {
        "1"
    } else if d == 2 {
        "2"
    } else if d == 3 {
        "3"
    } else if d == 4 {
        "4"
    } else if d == 5 {
        "5"
    } else if d == 6 {
        "6"
    } else if d == 7 {
        "7"
    } else if d == 8 {
        "8"
    } else {
        "9"
    };
    let ghost before = text@;
    text.append(mark);
    proof {
        assert(mark@ =~= seq![digit(d as nat)]);
        assert(text@ =~= before.push(digit(d as nat)));
    }
}

/// Append the decimal digits of `n`.
pub fn append_decimal(text: &mut String, n: u64)
    ensures
        final(text)@ == old(text)@ + decimal(n as nat),
    decreases n,
{
    let ghost before = text@;
    if n >= 10 {
        append_decimal(text, n / 10);
    }
    let ghost middle = text@;
    append_digit(text, n % 10);
    proof {
        if n >= 10 {
            assert(text@ =~= before + decimal((n / 10) as nat).push(digit((n % 10) as nat)));
        } else {
            assert(text@ =~= before + seq![digit(n as nat)]);
        }
    }
}

/// Append a bracketed list.
pub fn append_bracketed(text: &mut String, list: &Vec<usize>)
    ensures
        final(text)@ == old(text)@ + bracketed(list@),
{
    let ghost before = text@;
    text.append("[");
    let mut i: usize = 0;
    while i < list.len()
        invariant
            i <= list.len(),
            text@ == before + "["@ + comma_list(list@.take(i as int)),
        decreases list.len() - i,
    {
        let ghost shown = text@;
        if i > 0 {
            text.append(", ");
        }
        append_decimal(text, list[i] as u64);
        proof {
            let next = list@.take(i as int + 1);
            assert(next.drop_last() =~= list@.take(i as int));
            if i == 0 {
                assert(list@.take(0) =~= Seq::<usize>::empty());
                assert(text@ =~= before + "["@ + comma_list(next));
            } else {
                assert(text@ =~= before + "["@ + (comma_list(next.drop_last()) + ", "@ + decimal(
                    next.last() as nat,
                )));
            }
        }
        i += 1;
    }
    text.append("]");
    proof {
        assert(list@.take(list.len() as int) =~= list@);
        assert(text@ =~= before + bracketed(list@));
    }
}

/// Whether a text comes before another in dictionary order.
pub open spec fn precedes(a: Seq<char>, b: Seq<char>) -> bool
    decreases a.len(),
{
    if b.len() == 0 {
        false
    } else if a.len() == 0 {
        true
    } else if a[0] != b[0] {
        a[0] < b[0]
    } else {
        precedes(a.drop_first(), b.drop_first())
    }
}

/// Whether a text comes before another in dictionary order.
pub fn comes_before(a: &str, b: &str) -> (r: bool)
    ensures
        r == precedes(a@, b@),
{
    let n: usize = a.unicode_len();
    let m: usize = b.unicode_len();
    let mut i: usize = 0;
    proof {
        assert(a@.skip(0) =~= a@);
        assert(b@.skip(0) =~= b@);
    }
    while i < n && i < m
        invariant
            n == a@.len(),
            m == b@.len(),
            i <= n,
            i <= m,
            precedes(a@, b@) == precedes(a@.skip(i as int), b@.skip(i as int)),
        decreases n - i,
    {
        let x: char = a.get_char(i);
        let y: char = b.get_char(i);
        if x != y {
            return x < y;
        }
        proof {
            assert(a@.skip(i as int).drop_first() =~= a@.skip(i as int + 1));
            assert(b@.skip(i as int).drop_first() =~= b@.skip(i as int + 1));
        }
        i += 1;
    }
    i < m
}

/// Dictionary order is a strict total order.
pub proof fn law_dictionary_order(a: Seq<char>, b: Seq<char>, c: Seq<char>)
    ensures
        !precedes(a, a),
        precedes(a, b) && precedes(b, c) ==> precedes(a, c),
        precedes(a, b) || precedes(b, a) || a == b,
        !(precedes(a, b) && precedes(b, a)),
    decreases a.len() + b.len() + c.len(),
{
    if a.len() > 0 && b.len() > 0 && c.len() > 0 {
        law_dictionary_order(a.drop_first(), b.drop_first(), c.drop_first());
    } else if a.len() > 0 && b.len() > 0 {
        law_dictionary_order(a.drop_first(), b.drop_first(), c);
    } else if a.len() > 0 {
        law_dictionary_order(a.drop_first(), b, c);
    }
    if a.len() > 0 && b.len() > 0 && a[0] == b[0] && a.drop_first() == b.drop_first() {
        assert(a =~= seq![a[0]] + a.drop_first());
        assert(b =~= seq![b[0]] + b.drop_first());
    }
    if a.len() == 0 && b.len() == 0 {
        assert(a =~= b);
    }
}

/// Whether a pattern stands in a text from a given place on.
pub open spec fn stands_at(text: Seq<char>, pattern: Seq<char>, i: int) -> bool {
    0 <= i && i + pattern.len() <= text.len() && text.subrange(i, i + pattern.len()) == pattern
}

/// Whether a text contains a pattern.
pub open spec fn holds(text: Seq<char>, pattern: Seq<char>) -> bool {
    exists|i: int| stands_at(text, pattern, i)
}

fn matches_at(text: &str, pattern: &str, i: usize) -> (r: bool)
    requires
        i + pattern@.len() <= text@.len(),
    ensures
        r == stands_at(text@, pattern@, i as int),
{
    let n: usize = text.unicode_len();
    let m: usize = pattern.unicode_len();
    let mut k: usize = 0;
    while k < m
        invariant
            k <= m,
            n == text@.len(),
            m == pattern@.len(),
            i + m <= n,
            forall|j: int| 0 <= j < k ==> text@[i + j] == #[trigger] pattern@[j],
        decreases m - k,
    {
        if text.get_char(i + k) != pattern.get_char(k) {
            proof {
                assert(text@.subrange(i as int, i + m as int)[k as int] != pattern@[k as int]);
            }
            return false;
        }
        k += 1;
    }
    proof {
        assert(text@.subrange(i as int, i + m as int) =~= pattern@);
    }
    true
}

/// Whether a text contains a pattern.
pub fn contains_text(text: &str, pattern: &str) -> (r: bool)
    ensures
        r == holds(text@, pattern@),
{
    let n: usize = text.unicode_len();
    let m: usize = pattern.unicode_len();
    if m > n {
        return false;
    }
    let mut i: usize = 0;
    while i <= n - m
        invariant
            m <= n,
            n == text@.len(),
            m == pattern@.len(),
            i <= n - m + 1,
            n <= usize::MAX,
            forall|j: int| 0 <= j < i ==> !#[trigger] stands_at(text@, pattern@, j),
        decreases n - m + 1 - i,
    {
        if matches_at(text, pattern, i) {
            return true;
        }
        if i == n - m {
            return false;
        }
        i += 1;
    }
    false
}

/// So many spaces.
pub open spec fn spaces(n: nat) -> Seq<char> {
    Seq::new(n, |i: int| ' ')
}

/// A text filled up with spaces on the right to a width.
pub open spec fn flush_left(text: Seq<char>, width: nat) -> Seq<char> {
    if text.len() < width {
        text + spaces((width - text.len()) as nat)
    } else {
        text
    }
}

/// A text filled up with spaces on the left to a width.
pub open spec fn flush_right(text: Seq<char>, width: nat) -> Seq<char> {
    if text.len() < width {
        spaces((width - text.len()) as nat) + text
    } else {
        text
    }
}

fn append_spaces(text: &mut String, n: usize)
    ensures
        final(text)@ == old(text)@ + spaces(n as nat),
{
    let ghost before = text@;
    let mut i: usize = 0;
    proof {
        reveal_strlit(" ");
        assert(text@ =~= before + spaces(0));
    }
    while i < n
        invariant
            i <= n,
            text@ == before + spaces(i as nat),
            " "@ == seq![' '],
        decreases n - i,
    {
        text.append(" ");
        proof {
            assert(spaces(i as nat) + seq![' '] =~= spaces((i + 1) as nat));
            assert(text@ =~= before + spaces((i + 1) as nat));
        }
        i += 1;
    }
}

/// Append a text, filled up with spaces on the right to a width.
pub fn append_left(text: &mut String, part: &str, width: usize)
    ensures
        final(text)@ == old(text)@ + flush_left(part@, width as nat),
{
    let ghost before = text@;
    let n: usize = part.unicode_len();
    text.append(part);
    if n < width {
        append_spaces(text, width - n);
    }
    proof {
        assert(text@ =~= before + flush_left(part@, width as nat));
    }
}

/// Append a text, filled up with spaces on the left to a width.
pub fn append_right(text: &mut String, part: &str, width: usize)
    ensures
        final(text)@ == old(text)@ + flush_right(part@, width as nat),
{
    let ghost before = text@;
    let n: usize = part.unicode_len();
    if n < width {
        append_spaces(text, width - n);
    }
    text.append(part);
    proof {
        assert(text@ =~= before + flush_right(part@, width as nat));
    }
}

} // verus!
