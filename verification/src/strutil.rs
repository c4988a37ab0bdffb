use vstd::prelude::*;

verus! {

use vstd::string::StrSliceExecFns;
use vstd::string::StringExecFns;

/// `p` is a prefix of `s`.
pub open spec fn starts_with_seq(s: Seq<char>, p: Seq<char>) -> bool {
    p.len() <= s.len() && s.take(p.len() as int) == p
}

/// `p` is a suffix of `s`.
pub open spec fn ends_with_seq(s: Seq<char>, p: Seq<char>) -> bool {
    p.len() <= s.len() && s.skip(s.len() - p.len()) == p
}

/// `p` occurs somewhere in `s` as a contiguous run.
pub open spec fn contains_seq(s: Seq<char>, p: Seq<char>) -> bool {
    exists|k: int|
        0 <= k && k + p.len() <= s.len() && #[trigger] s.subrange(k, k + p.len() as int) == p
}

pub fn str_eq(a: &str, b: &str) -> (r: bool)
    ensures
        r == (a@ == b@),
{
    let sa: String = a.to_owned();
    let sb: String = b.to_owned();
    sa == sb
}

pub fn str_starts_with(s: &str, p: &str) -> (r: bool)
    ensures
        r == starts_with_seq(s@, p@),
{
    let sl = s.unicode_len();
    let pl = p.unicode_len();
    if pl > sl {
        false
    } else {
        let pre = s.substring_char(0, pl);
        str_eq(pre, p)
    }
}

pub fn str_ends_with(s: &str, p: &str) -> (r: bool)
    ensures
        r == ends_with_seq(s@, p@),
{
    let sl = s.unicode_len();
    let pl = p.unicode_len();
    if pl > sl {
        false
    } else {
        let suf = s.substring_char(sl - pl, sl);
        str_eq(suf, p)
    }
}

pub fn str_contains(s: &str, p: &str) -> (r: bool)
    ensures
        r == contains_seq(s@, p@),
{
    let sl = s.unicode_len();
    let pl = p.unicode_len();
    if pl > sl {
        assert(forall|k: int|
            0 <= k && k + p@.len() <= s@.len() ==> #[trigger] s@.subrange(k, k + p@.len() as int)
                != p@);
        return false;
    }
    if pl == 0 {
        assert(contains_seq(s@, p@)) by {
            assert(s@.subrange(0, 0 + p@.len() as int) =~= p@);
        }
        return true;
    }
    let mut k: usize = 0;
    loop
        invariant
            sl == s@.len(),
            pl == p@.len(),
            0 < pl <= sl,
            k <= sl - pl + 1,
            forall|j: int| 0 <= j < k ==> #[trigger] s@.subrange(j, j + p@.len() as int) != p@,
        decreases sl - pl + 1 - k,
    {
        if k > sl - pl {
            return false;
        }
        let sub = s.substring_char(k, k + pl);
        if str_eq(sub, p) {
            return true;
        }
        k = k + 1;
    }
}

/// The first `n` characters of `s` as an owned string.
pub fn str_take(s: &str, n: usize) -> (r: String)
    requires
        n <= s@.len(),
    ensures
        r@ == s@.take(n as int),
{
    let pre = s.substring_char(0, n);
    pre.to_owned()
}

/// Everything after the first `n` characters of `s` as an owned string.
pub fn str_skip(s: &str, n: usize) -> (r: String)
    requires
        n <= s@.len(),
    ensures
        r@ == s@.skip(n as int),
{
    let l = s.unicode_len();
    let suf = s.substring_char(n, l);
    suf.to_owned()
}

pub fn concat2(a: &str, b: &str) -> (r: String)
    ensures
        r@ == a@ + b@,
{
    let mut s = a.to_owned();
    s.append(b);
    s
}

/// Joins two path segments with a single separator.
pub fn join_path(a: &str, b: &str) -> (r: String)
    ensures
        r@ == a@ + "/"@ + b@,
{
    let mut s = a.to_owned();
    s.append("/");
    s.append(b);
    s
}

/// The characters treated as blank by trimming; these are the blank
/// characters that the tool outputs handled here can contain.
pub open spec fn is_blank_char(c: char) -> bool {
    c == ' ' || c == '\t' || c == '\r' || c == '\n'
}

pub open spec fn trim_front(s: Seq<char>) -> Seq<char>
    decreases s.len(),
{
    if s.len() > 0 && is_blank_char(s[0]) {
        trim_front(s.drop_first())
    } else {
        s
    }
}

pub open spec fn trim_back(s: Seq<char>) -> Seq<char>
    decreases s.len(),
{
    if s.len() > 0 && is_blank_char(s.last()) {
        trim_back(s.drop_last())
    } else {
        s
    }
}

/// `s` with blank characters removed from both ends.
pub open spec fn trim_seq(s: Seq<char>) -> Seq<char> {
    trim_back(trim_front(s))
}

pub fn blank_char(c: char) -> (r: bool)
    ensures
        r == is_blank_char(c),
{
    c == ' ' || c == '\t' || c == '\r' || c == '\n'
}

proof fn lemma_trim_front_is_skip(s: Seq<char>, a: int)
    requires
        0 <= a <= s.len(),
        forall|j: int| 0 <= j < a ==> is_blank_char(s[j]),
        a == s.len() || !is_blank_char(s[a]),
    ensures
        trim_front(s) == s.skip(a),
    decreases a,
{
    if a == 0 {
        assert(s.skip(0) =~= s);
    } else {
        lemma_trim_front_is_skip(s.drop_first(), a - 1);
        assert(s.drop_first().skip(a - 1) =~= s.skip(a));
    }
}

proof fn lemma_trim_back_is_take(s: Seq<char>, b: int)
    requires
        0 <= b <= s.len(),
        forall|j: int| b <= j < s.len() ==> is_blank_char(s[j]),
        b == 0 || !is_blank_char(s[b - 1]),
    ensures
        trim_back(s) == s.take(b),
    decreases s.len() - b,
{
    if b == s.len() {
        assert(s.take(b) =~= s);
        if s.len() > 0 && is_blank_char(s.last()) {
            // contradiction with b == len and !is_blank(s[b-1])
            assert(false);
        }
    } else {
        lemma_trim_back_is_take(s.drop_last(), b);
        assert(s.drop_last().take(b) =~= s.take(b));
    }
}

pub fn str_trim(s: &str) -> (r: String)
    ensures
        r@ == trim_seq(s@),
{
    let l = s.unicode_len();
    let mut a: usize = 0;
    while a < l && blank_char(s.get_char(a))
        invariant
            l == s@.len(),
            a <= l,
            forall|j: int| 0 <= j < a ==> is_blank_char(s@[j]),
        decreases l - a,
    {
        a = a + 1;
    }
    proof {
        lemma_trim_front_is_skip(s@, a as int);
    }
    if a == l {
        let r = String::new();
        assert(trim_seq(s@) =~= Seq::<char>::empty());
        return r;
    }
    // s@[a] is not blank, so the trimmed string is non-empty.
    let mut b: usize = l;
    while b > a && blank_char(s.get_char(b - 1))
        invariant
            l == s@.len(),
            a < l,
            !is_blank_char(s@[a as int]),
            a <= b <= l,
            forall|j: int| b <= j < l ==> is_blank_char(s@[j]),
        decreases b,
    {
        b = b - 1;
    }
    let r = s.substring_char(a, b);
    proof {
        let tail = s@.skip(a as int);
        lemma_trim_back_is_take(tail, b - a);
        assert(tail.take(b - a) =~= s@.subrange(a as int, b as int));
    }
    r.to_owned()
}

/// Splits `s` at every occurrence of a separator character, accumulating the
/// current segment; empty segments are kept, as the splitting methods of the
/// standard library keep them.
pub open spec fn split_accum(s: Seq<char>, seps: Seq<char>, cur: Seq<char>) -> Seq<Seq<char>>
    decreases s.len(),
{
    if s.len() == 0 {
        seq![cur]
    } else if seps.contains(s[0]) {
        seq![cur] + split_accum(s.drop_first(), seps, Seq::empty())
    } else {
        split_accum(s.drop_first(), seps, cur.push(s[0]))
    }
}

pub open spec fn split_seq(s: Seq<char>, seps: Seq<char>) -> Seq<Seq<char>> {
    split_accum(s, seps, Seq::empty())
}

/// Splitting always yields at least one segment.
pub proof fn lemma_split_accum_at_least_one(s: Seq<char>, seps: Seq<char>, cur: Seq<char>)
    ensures
        split_accum(s, seps, cur).len() >= 1,
    decreases s.len(),
{
    if s.len() != 0 {
        if seps.contains(s[0]) {
            lemma_split_accum_at_least_one(s.drop_first(), seps, Seq::empty());
        } else {
            lemma_split_accum_at_least_one(s.drop_first(), seps, cur.push(s[0]));
        }
    }
}

fn char_in(seps: &Vec<char>, c: char) -> (r: bool)
    ensures
        r == seps@.contains(c),
{
    let mut i: usize = 0;
    while i < seps.len()
        invariant
            i <= seps@.len(),
            forall|j: int| 0 <= j < i ==> seps@[j] != c,
        decreases seps@.len() - i,
    {
        if seps[i] == c {
            return true;
        }
        i = i + 1;
    }
    false
}

pub fn str_split(s: &str, seps: &Vec<char>) -> (r: Vec<String>)
    ensures
        r.deep_view() == split_seq(s@, seps@),
{
    let l = s.unicode_len();
    let mut parts: Vec<String> = Vec::new();
    let mut seg_start: usize = 0;
    let mut i: usize = 0;
    proof {
        assert(s@.skip(0) =~= s@);
        assert(s@.subrange(0, 0) =~= Seq::<char>::empty());
        assert(parts.deep_view() =~= Seq::<Seq<char>>::empty());
        assert(Seq::<Seq<char>>::empty() + split_accum(s@, seps@, Seq::empty()) =~= split_accum(
            s@,
            seps@,
            Seq::empty(),
        ));
    }
    while i < l
        invariant
            l == s@.len(),
            seg_start <= i <= l,
            split_seq(s@, seps@) == parts.deep_view() + split_accum(
                s@.skip(i as int),
                seps@,
                s@.subrange(seg_start as int, i as int),
            ),
        decreases l - i,
    {
        let ghost pre = parts.deep_view();
        let ghost cur = s@.subrange(seg_start as int, i as int);
        let ghost rest = s@.skip(i as int);
        proof {
            assert(rest.len() > 0);
            assert(rest[0] == s@[i as int]);
            assert(rest.drop_first() =~= s@.skip(i as int + 1));
        }
        let c = s.get_char(i);
        if char_in(seps, c) {
            let seg = s.substring_char(seg_start, i);
            parts.push(seg.to_owned());
            proof {
                assert(parts.deep_view() =~= pre.push(cur));
                assert(pre.push(cur) =~= pre + seq![cur]);
                assert(split_accum(rest, seps@, cur) == seq![cur] + split_accum(
                    rest.drop_first(),
                    seps@,
                    Seq::empty(),
                ));
                assert((pre + seq![cur]) + split_accum(rest.drop_first(), seps@, Seq::empty())
                    =~= pre + (seq![cur] + split_accum(rest.drop_first(), seps@, Seq::empty())));
                assert(s@.subrange(i as int + 1, i as int + 1) =~= Seq::<char>::empty());
            }
            seg_start = i + 1;
        } else {
            proof {
                assert(cur.push(s@[i as int]) =~= s@.subrange(seg_start as int, i as int + 1));
            }
        }
        i = i + 1;
    }
    let ghost pre = parts.deep_view();
    let ghost cur = s@.subrange(seg_start as int, l as int);
    let seg = s.substring_char(seg_start, l);
    parts.push(seg.to_owned());
    proof {
        assert(s@.skip(l as int).len() == 0);
        assert(split_accum(s@.skip(l as int), seps@, cur) == seq![cur]);
        assert(parts.deep_view() =~= pre + seq![cur]);
    }
    parts
}

pub open spec fn is_dec_digit(c: char) -> bool {
    '0' as u32 <= c as u32 && c as u32 <= '9' as u32
}

pub open spec fn digit_value(c: char) -> int {
    c as u32 - '0' as u32
}

pub open spec fn all_dec_digits(s: Seq<char>) -> bool {
    forall|i: int| 0 <= i < s.len() ==> is_dec_digit(#[trigger] s[i])
}

/// The value of a string of decimal digits, most significant first.
pub open spec fn dec_value(s: Seq<char>) -> int
    decreases s.len(),
{
    if s.len() == 0 {
        0
    } else {
        dec_value(s.drop_last()) * 10 + digit_value(s.last())
    }
}

proof fn lemma_dec_value_nonneg(s: Seq<char>)
    requires
        all_dec_digits(s),
    ensures
        dec_value(s) >= 0,
    decreases s.len(),
{
    if s.len() > 0 {
        assert(all_dec_digits(s.drop_last())) by {
            assert(forall|i: int|
                0 <= i < s.drop_last().len() ==> #[trigger] s.drop_last()[i] == s[i]);
        }
        lemma_dec_value_nonneg(s.drop_last());
    }
}

/// Parses a non-empty string of decimal digits; anything else, or a value
/// over `usize::MAX`, is rejected.
pub fn parse_usize(s: &str) -> (r: Option<usize>)
    ensures
        r is Some <==> (s@.len() > 0 && all_dec_digits(s@) && dec_value(s@) <= usize::MAX),
        r is Some ==> r->0 == dec_value(s@),
{
    let l = s.unicode_len();
    if l == 0 {
        return None;
    }
    let mut acc: usize = 0;
    let mut i: usize = 0;
    while i < l
        invariant
            l == s@.len(),
            i <= l,
            all_dec_digits(s@.take(i as int)),
            acc == dec_value(s@.take(i as int)),
        decreases l - i,
    {
        let ghost pre = s@.take(i as int);
        let c = s.get_char(i);
        let code = c as u32;
        if code < 48 || code > 57 {
            assert(!is_dec_digit(s@[i as int]));
            return None;
        }
        let d = (code - 48) as usize;
        proof {
            assert(s@.take(i as int + 1).drop_last() =~= pre);
            assert(s@.take(i as int + 1).last() == s@[i as int]);
            assert(all_dec_digits(s@.take(i as int + 1))) by {
                assert(forall|j: int|
                    0 <= j < i ==> #[trigger] s@.take(i as int + 1)[j] == pre[j]);
            }
        }
        let step = acc.checked_mul(10);
        let next = match step {
            Some(v) => v.checked_add(d),
            None => None,
        };
        match next {
            Some(v) => {
                acc = v;
            },
            None => {
                // The value of this prefix already exceeds usize::MAX, and
                // appending further decimal digits cannot shrink it.
                proof {
                    assert(dec_value(s@.take(i as int + 1)) > usize::MAX);
                    if all_dec_digits(s@) {
                        lemma_value_grows_with_digits(s@, i as int + 1);
                    }
                }
                return None;
            },
        }
        i = i + 1;
    }
    proof {
        assert(s@.take(l as int) =~= s@);
    }
    Some(acc)
}

/// Appending decimal digits never decreases the value of a digit string.
proof fn lemma_value_grows_with_digits(s: Seq<char>, i: int)
    requires
        0 <= i <= s.len(),
        all_dec_digits(s),
    ensures
        dec_value(s) >= dec_value(s.take(i)),
    decreases s.len() - i,
{
    if i < s.len() {
        lemma_value_grows_with_digits(s, i + 1);
        let p = s.take(i + 1);
        assert(p.drop_last() =~= s.take(i));
        assert(all_dec_digits(s.take(i))) by {
            assert(forall|j: int| 0 <= j < i ==> #[trigger] s.take(i)[j] == s[j]);
        }
        lemma_dec_value_nonneg(s.take(i));
        assert(is_dec_digit(p.last()));
    } else {
        assert(s.take(i) =~= s);
    }
}

pub open spec fn dec_digit_char(v: int) -> char {
    if v == 0 {
        '0'
    } else if v == 1 {
        '1'
    } else if v == 2 {
        '2'
    } else if v == 3 {
        '3'
    } else if v == 4 {
        '4'
    } else if v == 5 {
        '5'
    } else if v == 6 {
        '6'
    } else if v == 7 {
        '7'
    } else if v == 8 {
        '8'
    } else {
        '9'
    }
}

/// The decimal rendering of a natural number, most significant digit first.
pub open spec fn dec_chars(n: nat) -> Seq<char>
    decreases n,
{
    if n < 10 {
        seq![dec_digit_char(n as int)]
    } else {
        dec_chars(n / 10).push(dec_digit_char((n % 10) as int))
    }
}

fn dec_digit_str(v: u64) -> (r: &'static str)
    requires
        v < 10,
    ensures
        r@ == seq![dec_digit_char(v as int)],
{
    proof {
        reveal_strlit("0");
        reveal_strlit("1");
        reveal_strlit("2");
        reveal_strlit("3");
        reveal_strlit("4");
        reveal_strlit("5");
        reveal_strlit("6");
        reveal_strlit("7");
        reveal_strlit("8");
        reveal_strlit("9");
        assert("0"@ =~= seq!['0']);
        assert("1"@ =~= seq!['1']);
        assert("2"@ =~= seq!['2']);
        assert("3"@ =~= seq!['3']);
        assert("4"@ =~= seq!['4']);
        assert("5"@ =~= seq!['5']);
        assert("6"@ =~= seq!['6']);
        assert("7"@ =~= seq!['7']);
        assert("8"@ =~= seq!['8']);
        assert("9"@ =~= seq!['9']);
    }
    match v {
        0 => "0",
        1 => "1",
        2 => "2",
        3 => "3",
        4 => "4",
        5 => "5",
        6 => "6",
        7 => "7",
        8 => "8",
        _ => "9",
    }
}

pub fn u64_to_dec_string(n: u64) -> (r: String)
    ensures
        r@ == dec_chars(n as nat),
    decreases n,
{
    if n < 10 {
        dec_digit_str(n).to_owned()
    } else {
        let mut rest = u64_to_dec_string(n / 10);
        rest.append(dec_digit_str(n % 10));
        assert(rest@ =~= dec_chars((n / 10) as nat).push(dec_digit_char((n % 10) as int)));
        rest
    }
}

pub uninterp spec fn lower_of(s: Seq<char>) -> Seq<char>;

/// Relies on str::to_lowercase: the lowercase mapping depends on the
/// characters of the input alone.
#[verifier::external_body]
pub fn to_lowercase_string(s: &str) -> (r: String)
    ensures
        r@ == lower_of(s@),
{
    s.to_lowercase()
}

} // verus!
