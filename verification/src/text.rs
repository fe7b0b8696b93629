//! Text as sequences of characters: the trimming, ASCII case folding and
//! decimal rendering the option and name handling rests on.
use vstd::prelude::*;
use vstd::string::*;

verus! {

/// Unicode's `White_Space` property, which `char::is_whitespace` and
/// `str::trim` follow.
pub open spec fn is_space(c: char) -> bool {
    let u = c as u32;
    ||| 0x09 <= u <= 0x0d
    ||| u == 0x20
    ||| u == 0x85
    ||| u == 0xa0
    ||| u == 0x1680
    ||| 0x2000 <= u <= 0x200a
    ||| u == 0x2028
    ||| u == 0x2029
    ||| u == 0x202f
    ||| u == 0x205f
    ||| u == 0x3000
}

pub open spec fn is_upper(c: char) -> bool {
    'A' <= c <= 'Z'
}

/// ASCII lowercasing of one character; every other character is kept.
pub open spec fn lower(c: char) -> char {
    if is_upper(c) {
        ((c as u32) + 32) as char
    } else {
        c
    }
}

pub open spec fn lower_seq(s: Seq<char>) -> Seq<char> {
    s.map_values(|c: char| lower(c))
}

/// `a` and `b` are equal once ASCII letters are folded to lower case.
pub open spec fn eq_ignore_case(a: Seq<char>, b: Seq<char>) -> bool {
    lower_seq(a) == lower_seq(b)
}

pub open spec fn trim_start(s: Seq<char>) -> Seq<char>
    decreases s.len(),
{
    if s.len() > 0 && is_space(s[0]) {
        trim_start(s.drop_first())
    } else {
        s
    }
}

pub open spec fn trim_end(s: Seq<char>) -> Seq<char>
    decreases s.len(),
{
    if s.len() > 0 && is_space(s.last()) {
        trim_end(s.drop_last())
    } else {
        s
    }
}

/// What `str::trim` keeps: the text without leading and trailing white space.
pub open spec fn trim(s: Seq<char>) -> Seq<char> {
    trim_end(trim_start(s))
}

pub open spec fn digit(d: nat) -> char {
    ((d % 10) + 48) as char
}

/// The decimal digits of `n`, most significant first, with no leading zero.
pub open spec fn decimal(n: nat) -> Seq<char>
    decreases n,
{
    if n < 10 {
        seq![digit(n)]
    } else {
        decimal(n / 10).push(digit(n % 10))
    }
}

/// The characters of a string slice.
#[verifier::external_body]
pub(crate) fn chars_of(s: &str) -> (v: Vec<char>)
    ensures
        v@ == s@,
{
    s.chars().collect()
}

/// The bytes UTF-8 takes for `c`.
pub open spec fn char_width(c: char) -> nat {
    if (c as u32) < 0x80 {
        1
    } else if (c as u32) < 0x800 {
        2
    } else if (c as u32) < 0x10000 {
        3
    } else {
        4
    }
}

/// The bytes UTF-8 takes for `s`: what `str::len` counts.
pub open spec fn utf8_len(s: Seq<char>) -> nat
    decreases s.len(),
{
    if s.len() == 0 {
        0
    } else {
        utf8_len(s.drop_last()) + char_width(s.last())
    }
}

/// The bytes UTF-8 takes for all of `texts`.
pub open spec fn texts_len(texts: Seq<Seq<char>>) -> nat
    decreases texts.len(),
{
    if texts.len() == 0 {
        0
    } else {
        texts_len(texts.drop_last()) + utf8_len(texts.last())
    }
}

/// The most bytes a Utf8 column holds: its offsets are `i32`.
pub const TEXT_COLUMN_BYTES: usize = 0x7fff_ffff;

/// `utf8_len(s@)`, or `None` where it exceeds `limit`.
pub fn utf8_len_within(s: &str, limit: usize) -> (r: Option<usize>)
    ensures
        match r {
            Some(n) => n == utf8_len(s@) && n <= limit,
            None => utf8_len(s@) > limit,
        },
{
    let c = chars_of(s);
    let mut n: usize = 0;
    let mut i: usize = 0;
    while i < c.len()
        invariant
            i <= c@.len(),
            c@ == s@,
            n == utf8_len(c@.subrange(0, i as int)),
            n <= limit,
        decreases c@.len() - i,
    {
        let code = c[i] as u32;
        let w: usize = if code < 0x80 {
            1
        } else if code < 0x800 {
            2
        } else if code < 0x10000 {
            3
        } else {
            4
        };
        proof {
            let t = c@.subrange(0, i + 1);
            assert(t.drop_last() =~= c@.subrange(0, i as int));
            assert(t.last() == c@[i as int]);
            assert(w == char_width(c@[i as int]));
            assert(utf8_len(t) == n + w);
        }
        if w > limit - n {
            proof {
                lemma_utf8_len_prefix(c@, i + 1);
            }
            return None;
        }
        n = n + w;
        i = i + 1;
    }
    assert(c@.subrange(0, c@.len() as int) =~= c@);
    Some(n)
}

/// A prefix takes no more bytes than the whole.
pub proof fn lemma_utf8_len_prefix(s: Seq<char>, k: int)
    requires
        0 <= k <= s.len(),
    ensures
        utf8_len(s.subrange(0, k)) <= utf8_len(s),
    decreases s.len() - k,
{
    if k < s.len() {
        lemma_utf8_len_prefix(s, k + 1);
        let t = s.subrange(0, k + 1);
        assert(t.drop_last() =~= s.subrange(0, k));
    } else {
        assert(s.subrange(0, k) =~= s);
    }
}

/// The bytes all of `texts` take, or `None` where they exceed `limit`.
pub fn texts_len_within(texts: &Vec<String>, limit: usize) -> (r: Option<usize>)
    ensures
        match r {
            Some(n) => n == texts_len(texts@.map_values(|t: String| t@)) && n <= limit,
            None => texts_len(texts@.map_values(|t: String| t@)) > limit,
        },
{
    let ghost all = texts@.map_values(|t: String| t@);
    let mut n: usize = 0;
    let mut i: usize = 0;
    while i < texts.len()
        invariant
            i <= texts@.len(),
            all == texts@.map_values(|t: String| t@),
            n == texts_len(all.subrange(0, i as int)),
            n <= limit,
        decreases texts@.len() - i,
    {
        proof {
            let t = all.subrange(0, i + 1);
            assert(t.drop_last() =~= all.subrange(0, i as int));
            assert(t.last() == texts@[i as int]@);
        }
        match utf8_len_within(texts[i].as_str(), limit - n) {
            Some(w) => {
                n = n + w;
            },
            None => {
                proof {
                    lemma_texts_len_prefix(all, i + 1);
                }
                return None;
            },
        }
        i = i + 1;
    }
    assert(all.subrange(0, all.len() as int) =~= all);
    Some(n)
}

/// The texts of optional texts, a missing one empty.
pub open spec fn present_texts(texts: Seq<Option<String>>) -> Seq<Seq<char>> {
    texts.map_values(
        |o: Option<String>|
            match o {
                Some(t) => t@,
                None => Seq::<char>::empty(),
            },
    )
}

/// The bytes all present texts of `texts` take, or `None` where they exceed
/// `limit`.
pub fn optional_texts_len_within(texts: &Vec<Option<String>>, limit: usize) -> (r: Option<usize>)
    ensures
        match r {
            Some(n) => n == texts_len(present_texts(texts@)) && n <= limit,
            None => texts_len(present_texts(texts@)) > limit,
        },
{
    let ghost all = present_texts(texts@);
    let mut n: usize = 0;
    let mut i: usize = 0;
    while i < texts.len()
        invariant
            i <= texts@.len(),
            all == present_texts(texts@),
            n == texts_len(all.subrange(0, i as int)),
            n <= limit,
        decreases texts@.len() - i,
    {
        proof {
            let t = all.subrange(0, i + 1);
            assert(t.drop_last() =~= all.subrange(0, i as int));
        }
        let w = match &texts[i] {
            Some(t) => utf8_len_within(t.as_str(), limit - n),
            None => {
                assert(utf8_len(Seq::<char>::empty()) == 0);
                Some(0)
            },
        };
        match w {
            Some(w) => {
                n = n + w;
            },
            None => {
                proof {
                    lemma_texts_len_prefix(all, i + 1);
                }
                return None;
            },
        }
        i = i + 1;
    }
    assert(all.subrange(0, all.len() as int) =~= all);
    Some(n)
}

/// A prefix of texts takes no more bytes than all of them.
pub proof fn lemma_texts_len_prefix(s: Seq<Seq<char>>, k: int)
    requires
        0 <= k <= s.len(),
    ensures
        texts_len(s.subrange(0, k)) <= texts_len(s),
    decreases s.len() - k,
{
    if k < s.len() {
        lemma_texts_len_prefix(s, k + 1);
        let t = s.subrange(0, k + 1);
        assert(t.drop_last() =~= s.subrange(0, k));
    } else {
        assert(s.subrange(0, k) =~= s);
    }
}

/// The string made of these characters.
#[verifier::external_body]
pub(crate) fn string_of(v: &[char]) -> (s: String)
    ensures
        s@ == v@,
{
    v.iter().collect()
}

pub fn is_space_char(c: char) -> (r: bool)
    ensures
        r == is_space(c),
{
    let u = c as u32;
    (0x09 <= u && u <= 0x0d) || u == 0x20 || u == 0x85 || u == 0xa0 || u == 0x1680 || (0x2000 <= u
        && u <= 0x200a) || u == 0x2028 || u == 0x2029 || u == 0x202f || u == 0x205f || u == 0x3000
}

pub fn lower_char(c: char) -> (r: char)
    ensures
        r == lower(c),
{
    if 'A' <= c && c <= 'Z' {
        let b = (c as u8) + 32;
        assert(b as char == ((c as u32) + 32) as char);
        b as char
    } else {
        c
    }
}

pub fn lower_chars(s: &[char]) -> (r: Vec<char>)
    ensures
        r@ == lower_seq(s@),
{
    let mut out: Vec<char> = Vec::new();
    let mut i: usize = 0;
    while i < s.len()
        invariant
            i <= s@.len(),
            out@ == lower_seq(s@.subrange(0, i as int)),
        decreases s@.len() - i,
    {
        out.push(lower_char(s[i]));
        assert(s@.subrange(0, i + 1) == s@.subrange(0, i as int).push(s@[i as int]));
        i = i + 1;
    }
    assert(s@.subrange(0, s@.len() as int) == s@);
    out
}

proof fn lemma_trim_start_skip(s: Seq<char>, i: int)
    requires
        0 <= i < s.len(),
        is_space(s[i]),
    ensures
        trim_start(s.subrange(i, s.len() as int)) == trim_start(s.subrange(i + 1, s.len() as int)),
{
    let t = s.subrange(i, s.len() as int);
    assert(t.drop_first() == s.subrange(i + 1, s.len() as int));
}

/// The characters `str::trim` keeps.
pub fn trim_chars(s: &[char]) -> (r: Vec<char>)
    ensures
        r@ == trim(s@),
{
    let n = s.len();
    let mut i: usize = 0;
    assert(s@.subrange(0, n as int) == s@);
    while i < n && is_space_char(s[i])
        invariant
            n == s@.len(),
            i <= n,
            trim_start(s@) == trim_start(s@.subrange(i as int, n as int)),
        decreases n - i,
    {
        proof {
            lemma_trim_start_skip(s@, i as int);
        }
        i = i + 1;
    }
    let ghost start = s@.subrange(i as int, n as int);
    assert(trim_start(s@) == start);
    let mut j: usize = n;
    while j > i && is_space_char(s[j - 1])
        invariant
            n == s@.len(),
            i <= j <= n,
            start == s@.subrange(i as int, n as int),
            trim_end(start) == trim_end(s@.subrange(i as int, j as int)),
        decreases j - i,
    {
        proof {
            let t = s@.subrange(i as int, j as int);
            assert(t.drop_last() == s@.subrange(i as int, j - 1));
        }
        j = j - 1;
    }
    let mut out: Vec<char> = Vec::new();
    let mut k: usize = i;
    while k < j
        invariant
            i <= k <= j <= n,
            n == s@.len(),
            out@ == s@.subrange(i as int, k as int),
        decreases j - k,
    {
        out.push(s[k]);
        assert(s@.subrange(i as int, k + 1) == s@.subrange(i as int, k as int).push(s@[k as int]));
        k = k + 1;
    }
    out
}

pub fn eq_chars(a: &[char], b: &[char]) -> (r: bool)
    ensures
        r == (a@ == b@),
{
    if a.len() != b.len() {
        return false;
    }
    let mut i: usize = 0;
    while i < a.len()
        invariant
            a@.len() == b@.len(),
            i <= a@.len(),
            forall|k: int| 0 <= k < i ==> a@[k] == b@[k],
        decreases a@.len() - i,
    {
        if a[i] != b[i] {
            return false;
        }
        i = i + 1;
    }
    assert(a@ == b@);
    true
}

/// Whether `needle` occurs in `hay` as a run of consecutive characters.
pub open spec fn occurs_in(needle: Seq<char>, hay: Seq<char>) -> bool {
    exists|i: int|
        0 <= i && i + needle.len() <= hay.len() && #[trigger] hay.subrange(i, i + needle.len())
            == needle
}

/// `str::contains` with a text pattern.
pub fn contains_text(hay: &str, needle: &str) -> (r: bool)
    ensures
        r == occurs_in(needle@, hay@),
{
    let h = chars_of(hay);
    let n = chars_of(needle);
    if n.len() > h.len() {
        return false;
    }
    let size = h.len();
    let last = size - n.len();
    let mut i: usize = 0;
    while i <= last
        invariant
            h@ == hay@,
            n@ == needle@,
            n@.len() <= h@.len(),
            size == h@.len(),
            last == h@.len() - n@.len(),
            i <= last + 1,
            forall|j: int| 0 <= j < i ==> #[trigger] h@.subrange(j, j + n@.len()) != n@,
        decreases last + 1 - i,
    {
        let mut k: usize = 0;
        let mut same = true;
        while k < n.len()
            invariant
                h@ == hay@,
                n@ == needle@,
                n@.len() <= h@.len(),
                size == h@.len(),
                last == h@.len() - n@.len(),
                i <= last,
                k <= n@.len(),
                same ==> forall|m: int| 0 <= m < k ==> h@[i + m] == n@[m],
                !same ==> h@.subrange(i as int, i + n@.len()) != n@,
            decreases n@.len() - k,
        {
            if h[i + k] != n[k] {
                assert(h@.subrange(i as int, i + n@.len())[k as int] != n@[k as int]);
                same = false;
            }
            k = k + 1;
        }
        if same {
            assert(h@.subrange(i as int, i + n@.len()) =~= n@);
            return true;
        }
        if i == last {
            return false;
        }
        i = i + 1;
    }
    false
}

/// `str::eq_ignore_ascii_case`, on characters.
pub fn eq_ignore_case_chars(a: &[char], b: &[char]) -> (r: bool)
    ensures
        r == eq_ignore_case(a@, b@),
{
    let la = lower_chars(a);
    let lb = lower_chars(b);
    eq_chars(la.as_slice(), lb.as_slice())
}

pub fn str_eq(a: &str, b: &str) -> (r: bool)
    ensures
        r == (a@ == b@),
{
    let ca = chars_of(a);
    let cb = chars_of(b);
    eq_chars(ca.as_slice(), cb.as_slice())
}

proof fn lemma_decimal_len(n: nat)
    ensures
        decimal(n).len() >= 1,
    decreases n,
{
    if n >= 10 {
        lemma_decimal_len(n / 10);
    }
}

/// The decimal rendering of `n`, as `usize`'s `Display` writes it.
pub fn decimal_of(n: u64) -> (r: String)
    ensures
        r@ == decimal(n as nat),
{
    let mut digits: Vec<char> = Vec::new();
    let mut m: u64 = n;
    // Digits are found least significant first, then reversed.
    while m >= 10
        invariant
            decimal(n as nat) == decimal(m as nat) + digits@.reverse(),
        decreases m,
    {
        let d = (m % 10) as u8;
        let c = (d + 48) as char;
        proof {
            assert(c == digit((m % 10) as nat));
            assert(decimal(m as nat) == decimal((m / 10) as nat).push(digit((m % 10) as nat)));
            assert(digits@.push(c).reverse() == seq![c] + digits@.reverse());
            assert(decimal((m / 10) as nat).push(c) + digits@.reverse() == decimal((m / 10) as nat)
                + (seq![c] + digits@.reverse()));
        }
        digits.push(c);
        m = m / 10;
    }
    let c = ((m as u8) + 48) as char;
    proof {
        assert(c == digit(m as nat));
        assert(decimal(m as nat) == seq![digit(m as nat)]);
        assert(digits@.push(c).reverse() == seq![c] + digits@.reverse());
    }
    digits.push(c);
    let mut out: Vec<char> = Vec::new();
    let mut i: usize = digits.len();
    while i > 0
        invariant
            i <= digits@.len(),
            out@ == digits@.subrange(i as int, digits@.len() as int).reverse(),
        decreases i,
    {
        i = i - 1;
        proof {
            let rest = digits@.subrange(i + 1, digits@.len() as int);
            assert(digits@.subrange(i as int, digits@.len() as int) == seq![digits@[i as int]]
                + rest);
            assert((seq![digits@[i as int]] + rest).reverse() == rest.reverse().push(
                digits@[i as int],
            ));
        }
        out.push(digits[i]);
    }
    assert(digits@.subrange(0, digits@.len() as int) == digits@);
    string_of(out.as_slice())
}

} // verus!
