use vstd::prelude::*;
use vstd::std_specs::iter::IteratorSpec;

verus! {

/// The text of one decimal digit.
pub open spec fn digit_text(d: nat) -> Seq<char> {
    if d == 0 {
        "0"@
    } else if d == 1 {
        "1"@
    } else if d == 2 {
        "2"@
    } else if d == 3 {
        "3"@
    } else if d == 4 {
        "4"@
    } else if d == 5 {
        "5"@
    } else if d == 6 {
        "6"@
    } else if d == 7 {
        "7"@
    } else if d == 8 {
        "8"@
    } else {
        "9"@
    }
}

/// The decimal notation of `n`, without leading zeros.
pub open spec fn decimal(n: nat) -> Seq<char>
    decreases n,
{
    if n < 10 {
        digit_text(n)
    } else {
        decimal(n / 10) + digit_text(n % 10)
    }
}

fn digit_str(d: u64) -> (r: &'static str)
    requires
        d < 10,
    ensures
        r@ == digit_text(d as nat),
{
    if d == 0 {
        "0"
    } else if d == 1 {
        "1"
    } else if d == 2 {
        "2"
    } else if d == 3 {
        "3"
    } else if d == 4 {
        "4"
    } else if d == 5 {
        "5"
    } else if d == 6 {
        "6"
    } else if d == 7 {
        "7"
    } else if d == 8 {
        "8"
    } else {
        "9"
    }
}

/// Appends the decimal notation of `n`.
pub fn push_decimal(s: &mut String, n: u64)
    ensures
        final(s)@ == old(s)@ + decimal(n as nat),
    decreases n,
{
    if n >= 10 {
        push_decimal(s, n / 10);
    }
    s.append(digit_str(n % 10));
    assert(final(s)@ =~= old(s)@ + decimal(n as nat)) by {
        if n < 10 {
            assert(n % 10 == n);
        }
    }
}

/// `s` followed by as many spaces as make it `width` chars long.
pub open spec fn pad_right(s: Seq<char>, width: nat) -> Seq<char> {
    if s.len() >= width {
        s
    } else {
        s + Seq::new((width - s.len()) as nat, |i: int| ' ')
    }
}

/// `n` copies of `piece`, one after the other.
pub open spec fn repeat(piece: Seq<char>, n: nat) -> Seq<char>
    decreases n,
{
    if n == 0 {
        Seq::empty()
    } else {
        repeat(piece, (n - 1) as nat) + piece
    }
}

/// The texts of `parts` with `sep` between each two.
pub open spec fn join(parts: Seq<Seq<char>>, sep: Seq<char>) -> Seq<char>
    decreases parts.len(),
{
    if parts.len() == 0 {
        Seq::empty()
    } else if parts.len() == 1 {
        parts[0]
    } else {
        join(parts.drop_last(), sep) + sep + parts.last()
    }
}

/// A text takes at least as many bytes as it has chars.
proof fn lemma_utf8_len(chars: Seq<char>)
    ensures
        vstd::utf8::encode_utf8(chars).len() >= chars.len(),
    decreases chars.len(),
{
    if chars.len() > 0 {
        lemma_utf8_len(chars.drop_first());
    }
}

/// Number of chars of `s`.
pub fn char_count(s: &str) -> (r: usize)
    ensures
        r == s@.len(),
{
    let bytes = s.as_bytes().len();
    proof {
        lemma_utf8_len(s@);
    }
    let mut it = s.chars();
    let mut n: usize = 0;
    loop
        invariant
            s@.len() <= bytes,
            it.obeys_prophetic_iter_laws(),
            it.remaining() == s@.skip(n as int),
            n <= s@.len(),
        decreases s@.len() - n,
    {
        match it.next() {
            Some(_) => {
                assert(s@.skip(n as int).drop_first() =~= s@.skip(n + 1));
                n = n + 1;
            },
            None => {
                assert(s@.skip(n as int).len() == 0);
                return n;
            },
        }
    }
}

/// Appends spaces to `s` until it is `width` chars long.
pub fn pad_to(s: &mut String, width: usize)
    ensures
        final(s)@ == pad_right(old(s)@, width as nat),
{
    let n = char_count(s.as_str());
    if n >= width {
        return ;
    }
    let mut i: usize = n;
    while i < width
        invariant
            n <= i <= width,
            n == old(s)@.len(),
            s@ == old(s)@ + Seq::new((i - n) as nat, |k: int| ' '),
        decreases width - i,
    {
        s.append(" ");
        proof {
            reveal_strlit(" ");
            assert(s@ =~= old(s)@ + Seq::new((i + 1 - n) as nat, |k: int| ' '));
        }
        i = i + 1;
    }
}

/// `n` copies of `piece`.
pub fn repeat_str(piece: &str, n: usize) -> (r: String)
    ensures
        r@ == repeat(piece@, n as nat),
{
    let mut r = String::new();
    let mut i: usize = 0;
    while i < n
        invariant
            i <= n,
            r@ == repeat(piece@, i as nat),
        decreases n - i,
    {
        r.append(piece);
        i = i + 1;
    }
    r
}

/// The texts of `parts` with `sep` between each two.
pub fn join_strings(parts: &Vec<String>, sep: &str) -> (r: String)
    ensures
        r@ == join(parts@.map_values(|p: String| p@), sep@),
{
    let ghost views = parts@.map_values(|p: String| p@);
    let mut r = String::new();
    let mut i: usize = 0;
    while i < parts.len()
        invariant
            i <= parts@.len(),
            views == parts@.map_values(|p: String| p@),
            r@ == join(views.take(i as int), sep@),
        decreases parts@.len() - i,
    {
        proof {
            assert(views.take(i + 1).drop_last() =~= views.take(i as int));
        }
        if i != 0 {
            r.append(sep);
        }
        r.append(parts[i].as_str());
        proof {
            if i == 0 {
                assert(views.take(1) =~= seq![parts@[0]@]);
                assert(r@ =~= join(views.take(1), sep@));
            } else {
                assert(r@ =~= join(views.take(i + 1), sep@));
            }
        }
        i = i + 1;
    }
    assert(views.take(parts@.len() as int) =~= views);
    r
}

} // verus!
