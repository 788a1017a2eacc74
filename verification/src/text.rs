use vstd::prelude::*;

verus! {

/// Characters the parser treats as trimmable whitespace.
pub open spec fn is_ws(c: char) -> bool {
    c == ' ' || c == '\t' || c == '\r' || c == '\n'
}

/// `s` without its leading whitespace.
pub open spec fn skip_ws(s: Seq<char>) -> Seq<char>
    decreases s.len(),
{
    if s.len() == 0 || !is_ws(s[0]) {
        s
    } else {
        skip_ws(s.drop_first())
    }
}

/// `s` without its trailing whitespace.
pub open spec fn strip_ws_end(s: Seq<char>) -> Seq<char>
    decreases s.len(),
{
    if s.len() == 0 || !is_ws(s[s.len() - 1]) {
        s
    } else {
        strip_ws_end(s.drop_last())
    }
}

/// `s` without leading and trailing whitespace.
pub open spec fn trim_of(s: Seq<char>) -> Seq<char> {
    strip_ws_end(skip_ws(s))
}

fn ws_char(c: char) -> (r: bool)
    ensures
        r == is_ws(c),
{
    c == ' ' || c == '\t' || c == '\r' || c == '\n'
}

fn skip_ws_str(s: &str) -> (r: &str)
    ensures
        r@ == skip_ws(s@),
    decreases s@.len(),
{
    let n = s.unicode_len();
    if n == 0 {
        s
    } else if ws_char(s.get_char(0)) {
        skip_ws_str(s.substring_char(1, n))
    } else {
        s
    }
}

fn strip_ws_end_str(s: &str) -> (r: &str)
    ensures
        r@ == strip_ws_end(s@),
    decreases s@.len(),
{
    let n = s.unicode_len();
    if n == 0 {
        s
    } else if ws_char(s.get_char(n - 1)) {
        strip_ws_end_str(s.substring_char(0, n - 1))
    } else {
        s
    }
}

/// Remove leading and trailing whitespace from `s`.
pub fn trim(s: &str) -> (r: &str)
    ensures
        r@ == trim_of(s@),
{
    strip_ws_end_str(skip_ws_str(s))
}

/// Position of the first occurrence of `c` in `s`, if any.
pub open spec fn find_ch(s: Seq<char>, c: char) -> Option<int>
    decreases s.len(),
{
    if s.len() == 0 {
        None
    } else if s[0] == c {
        Some(0int)
    } else {
        match find_ch(s.drop_first(), c) {
            None => None,
            Some(i) => Some(i + 1),
        }
    }
}

/// Find the first occurrence of `c` in `s`.
pub fn find_char(s: &str, c: char) -> (r: Option<usize>)
    ensures
        match r {
            Some(i) => find_ch(s@, c) == Some(i as int) && i < s@.len() && s@[i as int] == c,
            None => find_ch(s@, c) is None,
        },
    decreases s@.len(),
{
    let n = s.unicode_len();
    if n == 0 {
        None
    } else if s.get_char(0) == c {
        Some(0)
    } else {
        match find_char(s.substring_char(1, n), c) {
            None => None,
            Some(i) => Some(i + 1),
        }
    }
}

/// The parts of `s` between the occurrences of `c`, in order; a string
/// without `c` is one part, so the result is never empty.
pub open spec fn split_ch(s: Seq<char>, c: char) -> Seq<Seq<char>>
    decreases s.len(),
{
    match find_ch(s, c) {
        None => seq![s],
        Some(i) => if 0 <= i < s.len() {
            seq![s.take(i)] + split_ch(s.skip(i + 1), c)
        } else {
            seq![s]
        },
    }
}

/// Split `s` on every occurrence of `c`.
pub fn split_char(s: &str, c: char) -> (r: Vec<String>)
    ensures
        r.deep_view() == split_ch(s@, c),
    decreases s@.len(),
{
    let n = s.unicode_len();
    match find_char(s, c) {
        None => {
            let mut v: Vec<String> = Vec::new();
            v.push(String::from_str(s));
            proof {
                assert(v.deep_view() =~= split_ch(s@, c));
            }
            v
        },
        Some(i) => {
            let head = String::from_str(s.substring_char(0, i));
            let mut v = split_char(s.substring_char(i + 1, n), c);
            v.insert(0, head);
            proof {
                assert(v.deep_view() =~= seq![s@.take(i as int)] + split_ch(
                    s@.skip(i as int + 1),
                    c,
                ));
            }
            v
        },
    }
}

/// Length of the run of non-whitespace characters at the front of `s`.
pub open spec fn token_len(s: Seq<char>) -> nat
    decreases s.len(),
{
    if s.len() == 0 || is_ws(s[0]) {
        0
    } else {
        1 + token_len(s.drop_first())
    }
}

/// The whitespace-separated tokens of `s`, in order; runs of whitespace
/// yield no empty tokens.
pub open spec fn ws_tokens(s: Seq<char>) -> Seq<Seq<char>>
    decreases s.len(),
{
    if s.len() == 0 {
        Seq::empty()
    } else if is_ws(s[0]) {
        ws_tokens(s.drop_first())
    } else {
        let k = token_len(s) as int;
        if 1 <= k <= s.len() {
            seq![s.take(k)] + ws_tokens(s.skip(k))
        } else {
            seq![s]
        }
    }
}

fn token_len_str(s: &str) -> (r: usize)
    ensures
        r == token_len(s@),
        r <= s@.len(),
    decreases s@.len(),
{
    let n = s.unicode_len();
    if n == 0 {
        0
    } else if ws_char(s.get_char(0)) {
        0
    } else {
        1 + token_len_str(s.substring_char(1, n))
    }
}

/// Split `s` into its whitespace-separated tokens.
pub fn split_tokens(s: &str) -> (r: Vec<String>)
    ensures
        r.deep_view() == ws_tokens(s@),
    decreases s@.len(),
{
    let n = s.unicode_len();
    if n == 0 {
        let v: Vec<String> = Vec::new();
        proof {
            assert(v.deep_view() =~= ws_tokens(s@));
        }
        v
    } else if ws_char(s.get_char(0)) {
        split_tokens(s.substring_char(1, n))
    } else {
        let k = token_len_str(s);
        let head = String::from_str(s.substring_char(0, k));
        let mut v = split_tokens(s.substring_char(k, n));
        v.insert(0, head);
        proof {
            assert(s@.take(k as int) =~= s@.subrange(0, k as int));
            assert(s@.skip(k as int) =~= s@.subrange(k as int, s@.len() as int));
            assert(v.deep_view() =~= seq![s@.take(k as int)] + ws_tokens(s@.skip(k as int)));
        }
        v
    }
}

/// All the strings of `ss` written out one after the other.
pub open spec fn concat_all(ss: Seq<Seq<char>>) -> Seq<char>
    decreases ss.len(),
{
    if ss.len() == 0 {
        Seq::empty()
    } else {
        ss[0] + concat_all(ss.drop_first())
    }
}

/// Concatenate the strings of `v` from position `i` up to `j`, without
/// separators.
pub fn join_range(v: &Vec<String>, i: usize, j: usize) -> (r: String)
    requires
        i <= j <= v.len(),
    ensures
        r@ == concat_all(v.deep_view().subrange(i as int, j as int)),
    decreases j - i,
{
    if i == j {
        proof {
            assert(v.deep_view().subrange(i as int, j as int) =~= Seq::<Seq<char>>::empty());
        }
        String::new()
    } else {
        let rest = join_range(v, i + 1, j);
        let mut s = String::from_str(v[i].as_str());
        s.append(rest.as_str());
        proof {
            assert(v.deep_view().subrange(i as int, j as int).drop_first() =~= v.deep_view()
                .subrange(i as int + 1, j as int));
            assert(v.deep_view().subrange(i as int, j as int)[0] == v.deep_view()[i as int]);
        }
        s
    }
}

/// Are the two strings the same text?
pub fn str_eq(a: &str, b: &str) -> (r: bool)
    ensures
        r == (a@ == b@),
{
    let an = a.unicode_len();
    let bn = b.unicode_len();
    if an != bn {
        return false;
    }
    let r = starts_with(a, b);
    proof {
        assert(a@.take(bn as int) =~= a@);
    }
    r
}

/// True if `c` is an ASCII decimal digit.
pub open spec fn is_digit(c: char) -> bool {
    '0' <= c && c <= '9'
}

/// The digit character for `d` (only the values 0 to 9 matter).
pub open spec fn digit_char(d: nat) -> char {
    if d == 0 {
        '0'
    } else if d == 1 {
        '1'
    } else if d == 2 {
        '2'
    } else if d == 3 {
        '3'
    } else if d == 4 {
        '4'
    } else if d == 5 {
        '5'
    } else if d == 6 {
        '6'
    } else if d == 7 {
        '7'
    } else if d == 8 {
        '8'
    } else {
        '9'
    }
}

/// The value of the digit character `c` (only digits matter).
pub open spec fn digit_val(c: char) -> nat {
    if c == '0' {
        0
    } else if c == '1' {
        1
    } else if c == '2' {
        2
    } else if c == '3' {
        3
    } else if c == '4' {
        4
    } else if c == '5' {
        5
    } else if c == '6' {
        6
    } else if c == '7' {
        7
    } else if c == '8' {
        8
    } else {
        9
    }
}

/// The decimal text of `n`, without sign or leading zeros.
pub open spec fn dec_str(n: nat) -> Seq<char>
    decreases n,
{
    if n < 10 {
        seq![digit_char(n)]
    } else {
        dec_str(n / 10).push(digit_char(n % 10))
    }
}

/// `s` is one or more ASCII decimal digits.
pub open spec fn is_dec(s: Seq<char>) -> bool {
    s.len() >= 1 && forall|i: int| 0 <= i < s.len() ==> is_digit(#[trigger] s[i])
}

/// The number the digit string `s` denotes (only digit strings matter).
pub open spec fn dec_val(s: Seq<char>) -> nat
    decreases s.len(),
{
    if s.len() == 0 {
        0
    } else {
        dec_val(s.drop_last()) * 10 + digit_val(s[s.len() - 1])
    }
}

fn digit_str(d: usize) -> (r: &'static str)
    requires
        d < 10,
    ensures
        r@ == seq![digit_char(d as nat)],
{
    proof {
        reveal_strlit("0");
        reveal_strlit("1");
        reveal_strlit("2");
        reveal_strlit("3");
        reveal_strlit("4");
        reveal_strlit("5");
        reveal_strlit("6");
        reveal_strlit("7");
        reveal_strlit("8");
        reveal_strlit("9");
    }
    match d {
        0 => "0",
        1 => "1",
        2 => "2",
        3 => "3",
        4 => "4",
        5 => "5",
        6 => "6",
        7 => "7",
        8 => "8",
        _ => "9",
    }
}

/// Write `n` in decimal.
pub fn usize_to_string(n: usize) -> (r: String)
    ensures
        r@ == dec_str(n as nat),
    decreases n,
{
    if n < 10 {
        String::from_str(digit_str(n))
    } else {
        let mut s = usize_to_string(n / 10);
        s.append(digit_str(n % 10));
        proof {
            assert(dec_str((n / 10) as nat) + seq![digit_char((n % 10) as nat)] =~= dec_str(
                (n / 10) as nat,
            ).push(digit_char((n % 10) as nat)));
        }
        s
    }
}

proof fn lemma_dec_val_prefix(s: Seq<char>, i: int)
    requires
        0 <= i <= s.len(),
    ensures
        dec_val(s.take(i)) <= dec_val(s),
    decreases s.len() - i,
{
    if i == s.len() {
        assert(s.take(i) =~= s);
    } else {
        lemma_dec_val_prefix(s, i + 1);
        assert(s.take(i + 1).drop_last() =~= s.take(i));
        assert(dec_val(s.take(i)) <= dec_val(s.take(i + 1)));
    }
}

/// Read `s` as an unsigned decimal number: `Some` exactly when `s` is one or
/// more digits and the value fits in `usize`.
pub fn parse_usize(s: &str) -> (r: Option<usize>)
    ensures
        match r {
            Some(v) => is_dec(s@) && v == dec_val(s@),
            None => !(is_dec(s@) && dec_val(s@) <= usize::MAX),
        },
{
    let n = s.unicode_len();
    if n == 0 {
        return None;
    }
    let mut i: usize = 0;
    let mut val: usize = 0;
    while i < n
        invariant
            i <= n,
            n == s@.len(),
            n >= 1,
            val == dec_val(s@.take(i as int)),
            forall|k: int| 0 <= k < i ==> is_digit(#[trigger] s@[k]),
        decreases n - i,
    {
        let c = s.get_char(i);
        if !('0' <= c && c <= '9') {
            return None;
        }
        let d: usize = char_digit(c);
        if val > usize::MAX / 10 || (val == usize::MAX / 10 && d > usize::MAX % 10) {
            proof {
                assert(s@.take(i as int + 1).drop_last() =~= s@.take(i as int));
                assert(dec_val(s@.take(i as int + 1)) == val * 10 + d);
                assert(val * 10 + d > usize::MAX) by (nonlinear_arith)
                    requires
                        val > usize::MAX / 10 || (val == usize::MAX / 10 && d > usize::MAX % 10),
                        d < 10,
                ;
                lemma_dec_val_prefix(s@, i as int + 1);
            }
            return None;
        }
        proof {
            assert(s@.take(i as int + 1).drop_last() =~= s@.take(i as int));
            assert(val * 10 + d <= usize::MAX) by (nonlinear_arith)
                requires
                    val <= usize::MAX / 10,
                    !(val == usize::MAX / 10 && d > usize::MAX % 10),
                    d < 10,
            ;
        }
        val = val * 10 + d;
        i += 1;
    }
    proof {
        assert(s@.take(n as int) =~= s@);
    }
    Some(val)
}

fn char_digit(c: char) -> (r: usize)
    requires
        is_digit(c),
    ensures
        r == digit_val(c),
        r < 10,
{
    if c == '0' {
        0
    } else if c == '1' {
        1
    } else if c == '2' {
        2
    } else if c == '3' {
        3
    } else if c == '4' {
        4
    } else if c == '5' {
        5
    } else if c == '6' {
        6
    } else if c == '7' {
        7
    } else if c == '8' {
        8
    } else {
        9
    }
}

/// True if `p` is a prefix of `s`.
pub open spec fn has_prefix(s: Seq<char>, p: Seq<char>) -> bool {
    p.len() <= s.len() && s.take(p.len() as int) == p
}

/// Does `s` start with `p`?
pub fn starts_with(s: &str, p: &str) -> (r: bool)
    ensures
        r == has_prefix(s@, p@),
{
    let pn = p.unicode_len();
    let sn = s.unicode_len();
    if pn > sn {
        return false;
    }
    let mut i: usize = 0;
    while i < pn
        invariant
            i <= pn <= sn,
            pn == p@.len(),
            sn == s@.len(),
            forall|k: int| 0 <= k < i ==> s@[k] == p@[k],
        decreases pn - i,
    {
        if s.get_char(i) != p.get_char(i) {
            proof {
                assert(s@.take(pn as int)[i as int] == s@[i as int]);
            }
            return false;
        }
        i += 1;
    }
    proof {
        assert(s@.take(pn as int) =~= p@);
    }
    true
}

} // verus!

