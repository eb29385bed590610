//! Text helpers: building messages piece by piece, decimal numbers, and
//! ASCII case folding.

use vstd::prelude::*;
use vstd::string::*;

verus! {

/// The character of one decimal digit.
pub open spec fn digit(d: nat) -> char {
    (48 + d) as char
}

/// The decimal notation of `n`, without leading zeros.
pub open spec fn decimal(n: nat) -> Seq<char>
    decreases n,
{
    if n < 10 {
        seq![digit(n)]
    } else {
        decimal(n / 10).push(digit(n % 10))
    }
}

/// The one-character text of a decimal digit.
fn digit_text(d: u64) -> (r: &'static str)
    requires
        d < 10,
    ensures
        r@ == seq![digit(d as nat)],
{
    proof {
        reveal_strlit("0");
        reveal_strlit("1");
        reveal_strlit("2");
        reveal_strlit("3");
        reveal_strlit("4");
        reveal_strlit("5");
        reveal_strlit("6");
        reveal_strlit("7");
        reveal_strlit("8");
        reveal_strlit("9");
    }
    if d == 0 {
        "0"
    } else if d == 1 {
        "1"
    } else if d == 2 {
        "2"
    } else if d == 3 {
        "3"
    } else if d == 4 {
        "4"
    } else if d == 5 {
        "5"
    } else if d == 6 {
        "6"
    } else if d == 7 {
        "7"
    } else if d == 8 {
        "8"
    } else {
        "9"
    }
}

/// Appends the decimal notation of `n`.
pub fn push_decimal(out: &mut String, n: u64)
    ensures
        final(out)@ == old(out)@ + decimal(n as nat),
    decreases n,
{
    if n >= 10 {
        push_decimal(out, n / 10);
    }
    let d = digit_text(n % 10);
    out.append(d);
}

/// The two texts, one after the other.
pub fn join(a: &str, b: &str) -> (r: String)
    ensures
        r@ == a@ + b@,
{
    let mut out = a.to_owned();
    out.append(b);
    out
}

/// Whether two texts hold the same characters.
pub fn same_text(a: &str, b: &str) -> (r: bool)
    ensures
        r == (a@ == b@),
{
    let x = a.to_owned();
    let y = b.to_owned();
    x == y
}

/// The characters of a text, in order.
pub fn chars_of(s: &str) -> (r: Vec<char>)
    ensures
        r@ == s@,
{
    let mut out: Vec<char> = Vec::new();
    for c in it: s.chars()
        invariant
            it.seq() == s@,
            out@ == it.seq().take(it.index()),
    {
        out.push(c);
    }
    out
}

/// `c` with an ASCII capital letter made small.
pub open spec fn lower_char(c: char) -> char {
    if 'A' <= c && c <= 'Z' {
        (c as u32 + 32) as char
    } else {
        c
    }
}

/// A text with its ASCII capital letters made small.
pub open spec fn lower(s: Seq<char>) -> Seq<char> {
    s.map_values(|c: char| lower_char(c))
}

/// Whether two characters differ at most in ASCII case.
fn same_letter(a: char, b: char) -> (r: bool)
    ensures
        r == (lower_char(a) == lower_char(b)),
{
    let x: u32 = a as u32;
    let y: u32 = b as u32;
    let p: u32 = if 65 <= x && x <= 90 {
        x + 32
    } else {
        x
    };
    let q: u32 = if 65 <= y && y <= 90 {
        y + 32
    } else {
        y
    };
    p == q
}

/// Whether `part` stands somewhere in `whole`, ASCII case aside.
pub open spec fn holds_ignoring_case(whole: Seq<char>, part: Seq<char>) -> bool {
    exists|i: int|
        0 <= i && i + part.len() <= whole.len() && #[trigger] lower(whole).subrange(
            i,
            i + part.len(),
        ) == lower(part)
}

/// Whether `y` stands in `x` at `at`, ASCII case aside.
fn stands_at(x: &Vec<char>, y: &Vec<char>, at: usize) -> (r: bool)
    requires
        at + y.len() <= x.len(),
    ensures
        r == (lower(x@).subrange(at as int, at + y.len()) == lower(y@)),
{
    let mut i: usize = 0;
    while i < y.len()
        invariant
            at + y.len() <= x.len(),
            i <= y.len(),
            forall|j: int| 0 <= j < i ==> lower_char(x[at + j]) == lower_char(#[trigger] y[j]),
        decreases y.len() - i,
    {
        if !same_letter(x[at + i], y[i]) {
            assert(lower(x@).subrange(at as int, at + y.len())[i as int] != lower(y@)[i as int]);
            return false;
        }
        i += 1;
    }
    assert(lower(x@).subrange(at as int, at + y.len()) =~= lower(y@));
    true
}

/// Whether `part` stands somewhere in `whole`, ASCII case aside.
pub fn contains_ignoring_case(whole: &str, part: &str) -> (r: bool)
    ensures
        r == holds_ignoring_case(whole@, part@),
{
    let x = chars_of(whole);
    let y = chars_of(part);
    if x.len() < y.len() {
        return false;
    }
    let last: usize = x.len() - y.len();
    let mut at: usize = 0;
    loop
        invariant
            x@ == whole@,
            y@ == part@,
            last + y.len() == x.len(),
            at <= last,
            forall|i: int|
                0 <= i < at ==> #[trigger] lower(whole@).subrange(i, i + part@.len()) != lower(
                    part@,
                ),
        decreases last - at,
    {
        if stands_at(&x, &y, at) {
            return true;
        }
        if at == last {
            return false;
        }
        at += 1;
    }
}

/// What follows `prefix` in `s`, where `s` starts with it.
pub fn after_prefix(s: &str, prefix: &str) -> (r: Option<String>)
    ensures
        match r {
            Some(rest) => s@ == prefix@ + rest@,
            None => !prefix@.is_prefix_of(s@),
        },
{
    let x = chars_of(s);
    let p = chars_of(prefix);
    if x.len() < p.len() {
        return None;
    }
    let mut i: usize = 0;
    while i < p.len()
        invariant
            x@ == s@,
            p@ == prefix@,
            p.len() <= x.len(),
            i <= p.len(),
            forall|j: int| 0 <= j < i ==> x[j] == p[j],
        decreases p.len() - i,
    {
        if x[i] != p[i] {
            return None;
        }
        i += 1;
    }
    let rest = s.substring_char(p.len(), x.len()).to_owned();
    assert(s@ =~= prefix@ + rest@);
    Some(rest)
}

/// The number that decimal digits denote, the highest first.
pub open spec fn digits_value(s: Seq<char>) -> nat
    decreases s.len(),
{
    if s.len() == 0 {
        0
    } else {
        10 * digits_value(s.drop_last()) + (s.last() as nat - 48) as nat
    }
}

/// The decimal notation of a number consists of digits, denotes the number,
/// and has no leading zero.
pub proof fn decimal_denotes_its_number(n: nat)
    ensures
        digits_value(decimal(n)) == n,
        decimal(n).len() > 0,
        forall|i: int|
            0 <= i < decimal(n).len() ==> '0' <= (#[trigger] decimal(n)[i]) && decimal(n)[i]
                <= '9',
        decimal(n).len() > 1 ==> decimal(n)[0] != '0',
        n > 0 ==> decimal(n)[0] != '0',
    decreases n,
{
    if n < 10 {
        let one = seq![digit(n)];
        assert(one.drop_last() =~= Seq::<char>::empty());
        assert(digits_value(one.drop_last()) == 0);
        assert(decimal(n) == one);
        assert(decimal(n).last() as nat == 48 + n);
    } else {
        decimal_denotes_its_number(n / 10);
        let init = decimal(n / 10);
        let all = init.push(digit(n % 10));
        assert(all.drop_last() =~= init);
        assert(all.last() as nat == 48 + n % 10);
        assert(decimal(n) == all);
        assert(all[0] == init[0]);
        assert forall|i: int| 0 <= i < all.len() implies '0' <= (#[trigger] all[i]) && all[i]
            <= '9' by {
            if i < init.len() {
                assert(all[i] == init[i]);
            }
        }
    }
}

/// Folding the case of a text changes its ASCII capitals to the small letters
/// 32 places behind them, and nothing else.
pub proof fn folding_changes_only_ascii_capitals(s: Seq<char>)
    ensures
        lower(s).len() == s.len(),
        forall|i: int|
            0 <= i < s.len() ==> (#[trigger] lower(s)[i]) as int == if 65 <= s[i] as int <= 90 {
                s[i] as int + 32
            } else {
                s[i] as int
            },
{
}

/// Two characters are the same, or one is the ASCII capital of the other.
pub open spec fn same_but_for_case(a: char, b: char) -> bool {
    ||| a == b
    ||| 65 <= a as int <= 90 && b as int == a as int + 32
    ||| 65 <= b as int <= 90 && a as int == b as int + 32
}

/// From `i` on, `whole` reads as `part`, but for ASCII case.
pub open spec fn reads_at(whole: Seq<char>, part: Seq<char>, i: int) -> bool {
    &&& 0 <= i
    &&& i + part.len() <= whole.len()
    &&& forall|k: int|
        0 <= k < part.len() ==> same_but_for_case(whole[i + k], #[trigger] part[k])
}

/// A text is found in another exactly if the other reads as it somewhere, but
/// for ASCII case.
pub proof fn found_where_it_reads_the_same(whole: Seq<char>, part: Seq<char>)
    ensures
        holds_ignoring_case(whole, part) <==> exists|i: int| reads_at(whole, part, i),
{
    assert forall|i: int| 0 <= i && i + part.len() <= whole.len() implies (reads_at(
        whole,
        part,
        i,
    ) <==> #[trigger] lower(whole).subrange(i, i + part.len()) == lower(part)) by {
        let w = lower(whole).subrange(i, i + part.len());
        let p = lower(part);
        if reads_at(whole, part, i) {
            assert forall|k: int| 0 <= k < part.len() implies w[k] == p[k] by {
                assert(same_but_for_case(whole[i + k], part[k]));
            }
            assert(w =~= p);
        }
        if w == p {
            assert forall|k: int| 0 <= k < part.len() implies same_but_for_case(
                whole[i + k],
                #[trigger] part[k],
            ) by {
                assert(w[k] == p[k]);
                assert(w[k] == lower_char(whole[i + k]));
                assert(p[k] == lower_char(part[k]));
            }
        }
    }
    if holds_ignoring_case(whole, part) {
        let i = choose|i: int|
            0 <= i && i + part.len() <= whole.len() && #[trigger] lower(whole).subrange(
                i,
                i + part.len(),
            ) == lower(part);
        assert(reads_at(whole, part, i));
    }
    if exists|i: int| reads_at(whole, part, i) {
        let i = choose|i: int| reads_at(whole, part, i);
        assert(lower(whole).subrange(i, i + part.len()) == lower(part));
    }
}

} // verus!
