//! Character-level text handling: whitespace, trimming, line breaks, UTF-8
//! byte lengths and the ASCII-whitespace word split.
use vstd::prelude::*;
use vstd::utf8::*;

verus! {

broadcast use vstd::utf8::char_is_scalar;

/// Unicode `White_Space`, the property behind `char::is_whitespace`.
pub open spec fn is_unicode_whitespace(c: char) -> bool {
    let u = c as u32;
    ||| 0x09 <= u <= 0x0D
    ||| u == 0x20
    ||| u == 0x85
    ||| u == 0xA0
    ||| u == 0x1680
    ||| 0x2000 <= u <= 0x200A
    ||| u == 0x2028
    ||| u == 0x2029
    ||| u == 0x202F
    ||| u == 0x205F
    ||| u == 0x3000
}

/// ASCII whitespace as `u8::is_ascii_whitespace` defines it: space, tab,
/// line feed, form feed and carriage return.
pub open spec fn is_ascii_whitespace(c: char) -> bool {
    c == ' ' || c == '\t' || c == '\n' || c == '\x0C' || c == '\r'
}

/// `s` without its trailing Unicode whitespace.
pub open spec fn trim_end_spec(s: Seq<char>) -> Seq<char>
    decreases s.len(),
{
    if s.len() > 0 && is_unicode_whitespace(s.last()) {
        trim_end_spec(s.drop_last())
    } else {
        s
    }
}

/// `s` without its leading Unicode whitespace.
pub open spec fn trim_start_spec(s: Seq<char>) -> Seq<char>
    decreases s.len(),
{
    if s.len() > 0 && is_unicode_whitespace(s[0]) {
        trim_start_spec(s.drop_first())
    } else {
        s
    }
}

/// `s` without its leading and trailing Unicode whitespace.
pub open spec fn trim_spec(s: Seq<char>) -> Seq<char> {
    trim_start_spec(trim_end_spec(s))
}

/// What `str::lines` yields, joined with nothing between the lines: every
/// `"\n"` and every `"\r\n"` is dropped, any other character is kept.
pub open spec fn without_line_breaks(s: Seq<char>) -> Seq<char>
    decreases s.len(),
{
    if s.len() == 0 {
        s
    } else if s[0] == '\n' {
        without_line_breaks(s.drop_first())
    } else if s[0] == '\r' && s.len() >= 2 && s[1] == '\n' {
        without_line_breaks(s.skip(2))
    } else {
        seq![s[0]] + without_line_breaks(s.drop_first())
    }
}

/// Number of bytes of the UTF-8 encoding of `s`.
pub open spec fn utf8_len(s: Seq<char>) -> nat {
    encode_utf8(s).len()
}

/// The words of `s`: its maximal runs of characters that are not ASCII
/// whitespace, in order. Read left to right, a character that is not
/// whitespace starts a new word after whitespace (or at the start) and
/// otherwise extends the last word.
pub open spec fn ascii_words(s: Seq<char>) -> Seq<Seq<char>>
    decreases s.len(),
{
    if s.len() == 0 {
        seq![]
    } else {
        let prev = ascii_words(s.drop_last());
        let c = s.last();
        if is_ascii_whitespace(c) {
            prev
        } else if s.len() == 1 || is_ascii_whitespace(s[s.len() - 2]) {
            prev.push(seq![c])
        } else {
            prev.update(prev.len() - 1, prev.last().push(c))
        }
    }
}

/// Sum of a sequence of sizes.
pub open spec fn sum_usizes(s: Seq<usize>) -> int
    decreases s.len(),
{
    if s.len() == 0 {
        0
    } else {
        sum_usizes(s.drop_last()) + s.last()
    }
}

pub proof fn lemma_sum_usizes_prefix(s: Seq<usize>, j: int)
    requires
        0 <= j < s.len(),
    ensures
        sum_usizes(s.take(j + 1)) == sum_usizes(s.take(j)) + s[j],
        sum_usizes(s.take(j + 1)) <= sum_usizes(s),
    decreases s.len(),
{
    assert(s.take(j + 1).drop_last() =~= s.take(j));
    if j + 1 == s.len() {
        assert(s.take(j + 1) =~= s);
    } else {
        assert(s.drop_last().take(j + 1) =~= s.take(j + 1));
        lemma_sum_usizes_prefix(s.drop_last(), j);
    }
}

/// `a` divided by `b`, rounded up (`usize::div_ceil`).
pub open spec fn ceil_div(a: nat, b: nat) -> nat {
    if a % b == 0 {
        a / b
    } else {
        a / b + 1
    }
}

pub proof fn lemma_encode_utf8_concat(a: Seq<char>, b: Seq<char>)
    ensures
        encode_utf8(a + b) =~= encode_utf8(a) + encode_utf8(b),
    decreases a.len(),
{
    if a.len() == 0 {
        assert(a + b =~= b);
    } else {
        assert((a + b).drop_first() =~= a.drop_first() + b);
        assert((a + b)[0] == a[0]);
        lemma_encode_utf8_concat(a.drop_first(), b);
    }
}

pub proof fn lemma_utf8_len_push(a: Seq<char>, c: char)
    ensures
        utf8_len(a.push(c)) == utf8_len(a) + encode_scalar(c as u32).len(),
{
    lemma_encode_utf8_concat(a, seq![c]);
    assert(a.push(c) =~= a + seq![c]);
    assert(seq![c].drop_first() =~= Seq::<char>::empty());
    assert(encode_utf8(seq![c]) =~= encode_scalar(c as u32) + encode_utf8(Seq::<char>::empty()));
    assert(encode_utf8(Seq::<char>::empty()) =~= Seq::<u8>::empty());
}

proof fn lemma_words_nonempty(s: Seq<char>)
    requires
        s.len() > 0,
        !is_ascii_whitespace(s.last()),
    ensures
        ascii_words(s).len() > 0,
    decreases s.len(),
{
    if s.len() > 1 && !is_ascii_whitespace(s[s.len() - 2]) {
        lemma_words_nonempty(s.drop_last());
    }
}

pub proof fn lemma_ceil_div_le(a: nat, b: nat)
    requires
        b >= 1,
    ensures
        ceil_div(a, b) <= a,
{
    assert(a / b <= a) by (nonlinear_arith)
        requires
            b >= 1,
    ;
    if a % b != 0 {
        assert(a / b < a) by (nonlinear_arith)
            requires
                b >= 2,
                a % b != 0,
        ;
    }
}

/// `char::is_whitespace`.
pub fn is_whitespace(c: char) -> (r: bool)
    ensures
        r == is_unicode_whitespace(c),
{
    let u = c as u32;
    (0x09 <= u && u <= 0x0D) || u == 0x20 || u == 0x85 || u == 0xA0 || u == 0x1680 || (0x2000
        <= u && u <= 0x200A) || u == 0x2028 || u == 0x2029 || u == 0x202F || u == 0x205F || u
        == 0x3000
}

/// `u8::is_ascii_whitespace` on a character.
pub fn is_ascii_ws(c: char) -> (r: bool)
    ensures
        r == is_ascii_whitespace(c),
{
    c == ' ' || c == '\t' || c == '\n' || c == '\x0C' || c == '\r'
}

/// Number of bytes of the UTF-8 encoding of `c`.
pub fn utf8_width(c: char) -> (n: usize)
    ensures
        n == encode_scalar(c as u32).len(),
        1 <= n <= 4,
{
    let u = c as u32;
    if u <= 0x7F {
        1
    } else if u <= 0x7FF {
        2
    } else if u <= 0xFFFF {
        3
    } else {
        4
    }
}

/// `a.div_ceil(b)`.
pub fn div_ceil(a: usize, b: usize) -> (r: usize)
    requires
        b >= 1,
    ensures
        r == ceil_div(a as nat, b as nat),
{
    proof {
        lemma_ceil_div_le(a as nat, b as nat);
    }
    if a % b == 0 {
        a / b
    } else {
        a / b + 1
    }
}

/// Appends one character to `s` (`String::push`).
#[verifier::external_body]
fn push_char(s: &mut String, c: char)
    ensures
        final(s)@ == old(s)@.push(c),
{
    s.push(c);
}

/// The characters of `s`, in order, in a vector.
pub fn chars_of(s: &str) -> (v: Vec<char>)
    ensures
        v@ == s@,
{
    let mut v: Vec<char> = Vec::new();
    for c in it: s.chars()
        invariant
            v@ == it.seq().take(it.index() as int),
    {
        v.push(c);
    }
    v
}

/// A string holding the characters `v[from..to]`.
pub fn string_of_chars(v: &Vec<char>, from: usize, to: usize) -> (r: String)
    requires
        from <= to <= v.len(),
    ensures
        r@ == v@.subrange(from as int, to as int),
{
    let mut r = String::new();
    let mut i = from;
    while i < to
        invariant
            from <= i <= to <= v.len(),
            r@ == v@.subrange(from as int, i as int),
        decreases to - i,
    {
        push_char(&mut r, v[i]);
        i = i + 1;
        assert(r@ =~= v@.subrange(from as int, i as int));
    }
    r
}

proof fn lemma_trim_end_take(s: Seq<char>, k: int)
    requires
        0 <= k <= s.len(),
        forall|j: int| k <= j < s.len() ==> is_unicode_whitespace(#[trigger] s[j]),
        k == 0 || !is_unicode_whitespace(s[k - 1]),
    ensures
        trim_end_spec(s) == s.take(k),
    decreases s.len(),
{
    if s.len() == k {
        assert(s.take(k) =~= s);
    } else {
        assert(s.drop_last().take(k) =~= s.take(k));
        lemma_trim_end_take(s.drop_last(), k);
    }
}

proof fn lemma_trim_start_skip(s: Seq<char>, k: int)
    requires
        0 <= k <= s.len(),
        forall|j: int| 0 <= j < k ==> is_unicode_whitespace(#[trigger] s[j]),
        k == s.len() || !is_unicode_whitespace(s[k]),
    ensures
        trim_start_spec(s) == s.skip(k),
    decreases k,
{
    if k == 0 {
        assert(s.skip(0) =~= s);
    } else {
        assert(s.drop_first().skip(k - 1) =~= s.skip(k));
        lemma_trim_start_skip(s.drop_first(), k - 1);
    }
}

/// Index just past the last character of `v` that is not whitespace (0 when
/// there is none).
fn trimmed_end_index(v: &Vec<char>) -> (k: usize)
    ensures
        k <= v.len(),
        forall|j: int| k <= j < v.len() ==> is_unicode_whitespace(#[trigger] v@[j]),
        k == 0 || !is_unicode_whitespace(v@[k - 1]),
{
    let mut k = v.len();
    while k > 0 && is_whitespace(v[k - 1])
        invariant
            k <= v.len(),
            forall|j: int| k <= j < v.len() ==> is_unicode_whitespace(#[trigger] v@[j]),
        decreases k,
    {
        k = k - 1;
    }
    k
}

/// `s.trim_end()`, as an owned string.
pub fn trim_end(s: &str) -> (r: String)
    ensures
        r@ == trim_end_spec(s@),
{
    let v = chars_of(s);
    let k = trimmed_end_index(&v);
    proof {
        lemma_trim_end_take(v@, k as int);
    }
    string_of_chars(&v, 0, k)
}

/// `s.trim()`, as an owned string.
pub fn trim(s: &str) -> (r: String)
    ensures
        r@ == trim_spec(s@),
{
    let v = chars_of(s);
    let k = trimmed_end_index(&v);
    let mut a: usize = 0;
    while a < k && is_whitespace(v[a])
        invariant
            a <= k <= v.len(),
            forall|j: int| 0 <= j < a ==> is_unicode_whitespace(#[trigger] v@[j]),
        decreases k - a,
    {
        a = a + 1;
    }
    proof {
        lemma_trim_end_take(v@, k as int);
        let t = v@.take(k as int);
        assert(forall|j: int| 0 <= j < a ==> t[j] == v@[j]);
        lemma_trim_start_skip(t, a as int);
        assert(t.skip(a as int) =~= v@.subrange(a as int, k as int));
    }
    string_of_chars(&v, a, k)
}

/// The text that `str::lines` yields for `s`, with nothing between the
/// lines.
pub fn strip_line_breaks(s: &str) -> (r: String)
    ensures
        r@ == without_line_breaks(s@),
{
    let v = chars_of(s);
    let n = v.len();
    let mut r = String::new();
    let mut i: usize = 0;
    assert(v@.skip(0) =~= v@);
    while i < n
        invariant
            n == v.len(),
            i <= n,
            without_line_breaks(v@) == r@ + without_line_breaks(v@.skip(i as int)),
        decreases n - i,
    {
        let ghost rest = v@.skip(i as int);
        let c = v[i];
        assert(rest[0] == c);
        assert(rest.drop_first() =~= v@.skip(i + 1));
        if c == '\n' {
            i = i + 1;
        } else if c == '\r' && i + 1 < n && v[i + 1] == '\n' {
            assert(rest[1] == v@[i + 1]);
            assert(rest.skip(2) =~= v@.skip(i + 2));
            i = i + 2;
        } else {
            let ghost before = r@;
            push_char(&mut r, c);
            assert(r@ + without_line_breaks(v@.skip(i + 1)) =~= before + (seq![c]
                + without_line_breaks(v@.skip(i + 1))));
            i = i + 1;
        }
    }
    assert(v@.skip(n as int) =~= Seq::<char>::empty());
    assert(r@ + Seq::<char>::empty() =~= r@);
    r
}

/// Byte length of every word of `s` (see [`ascii_words`]), in order, and the
/// byte length of the whole of `s`.
pub fn word_byte_lengths(s: &Vec<char>) -> (r: (Vec<usize>, usize))
    requires
        utf8_len(s@) <= usize::MAX,
    ensures
        r.0.len() == ascii_words(s@).len(),
        forall|k: int| 0 <= k < r.0.len() ==> r.0@[k] == utf8_len(#[trigger] ascii_words(s@)[k]),
        forall|k: int| 0 <= k < r.0.len() ==> r.0@[k] >= 1,
        sum_usizes(r.0@) <= r.1,
        r.1 == utf8_len(s@),
{
    let n = s.len();
    let mut lens: Vec<usize> = Vec::new();
    let mut total: usize = 0;
    let mut i: usize = 0;
    proof {
        lemma_utf8_len_prefix_le(s@, 0);
        assert(s@.take(0) =~= Seq::<char>::empty());
    }
    while i < n
        invariant
            n == s.len(),
            i <= n,
            utf8_len(s@) <= usize::MAX,
            total == utf8_len(s@.take(i as int)),
            lens.len() == ascii_words(s@.take(i as int)).len(),
            forall|k: int|
                0 <= k < lens.len() ==> lens@[k] == utf8_len(
                    #[trigger] ascii_words(s@.take(i as int))[k],
                ),
            forall|k: int| 0 <= k < lens.len() ==> lens@[k] <= total,
            forall|k: int| 0 <= k < lens.len() ==> lens@[k] >= 1,
            sum_usizes(lens@) <= total,
        decreases n - i,
    {
        let c = s[i];
        let w = utf8_width(c);
        let ghost pre = s@.take(i as int);
        let ghost cur = s@.take(i + 1);
        proof {
            assert(cur.drop_last() =~= pre);
            assert(cur.last() == c);
            assert(cur =~= pre.push(c));
            lemma_utf8_len_push(pre, c);
            lemma_utf8_len_prefix_le(s@, i + 1);
        }
        if is_ascii_ws(c) {
        } else if i == 0 || is_ascii_ws(s[i - 1]) {
            proof {
                if i > 0 {
                    assert(cur[cur.len() - 2] == s@[i - 1]);
                }
                assert(utf8_len(seq![c]) == w) by {
                    lemma_utf8_len_push(Seq::<char>::empty(), c);
                    assert(Seq::<char>::empty().push(c) =~= seq![c]);
                }
            }
            let ghost old_lens = lens@;
            lens.push(w);
            assert(lens@.drop_last() =~= old_lens);
        } else {
            proof {
                assert(cur[cur.len() - 2] == s@[i - 1]);
                assert(pre.last() == s@[i - 1]);
                lemma_words_nonempty(pre);
                let prev = ascii_words(pre);
                lemma_utf8_len_push(prev.last(), c);
            }
            let last = lens.len() - 1;
            let v = lens[last];
            let ghost old_lens = lens@;
            lens.set(last, v + w);
            assert(lens@.drop_last() =~= old_lens.drop_last());
        }
        total = total + w;
        i = i + 1;
    }
    assert(s@.take(n as int) =~= s@);
    (lens, total)
}

pub proof fn lemma_utf8_len_prefix_le(s: Seq<char>, i: int)
    requires
        0 <= i <= s.len(),
    ensures
        utf8_len(s.take(i)) <= utf8_len(s),
{
    lemma_encode_utf8_concat(s.take(i), s.skip(i));
    assert(s.take(i) + s.skip(i) =~= s);
}

} // verus!

verus! {

/// Whether the UTF-8 encoding of `s` takes at most `bound` bytes.
pub fn utf8_len_within(s: &str, bound: usize) -> (r: bool)
    ensures
        r == (utf8_len(s@) <= bound),
{
    let v = chars_of(s);
    let n = v.len();
    let mut total: usize = 0;
    let mut i: usize = 0;
    assert(v@.take(0) =~= Seq::<char>::empty());
    while i < n
        invariant
            n == v.len(),
            v@ == s@,
            i <= n,
            total == utf8_len(v@.take(i as int)),
            total <= bound,
        decreases n - i,
    {
        let w = utf8_width(v[i]);
        proof {
            assert(v@.take(i + 1) =~= v@.take(i as int).push(v@[i as int]));
            lemma_utf8_len_push(v@.take(i as int), v@[i as int]);
            lemma_utf8_len_prefix_le(v@, i + 1);
        }
        if w > bound - total {
            assert(utf8_len(v@.take(i + 1)) > bound);
            return false;
        }
        total = total + w;
        i = i + 1;
    }
    assert(v@.take(n as int) =~= v@);
    true
}

} // verus!

verus! {

/// Every character of `s` is Unicode whitespace.
pub open spec fn all_whitespace(s: Seq<char>) -> bool {
    forall|i: int| 0 <= i < s.len() ==> is_unicode_whitespace(#[trigger] s[i])
}

proof fn lemma_trim_end_blank(s: Seq<char>)
    ensures
        (trim_end_spec(s).len() == 0) == all_whitespace(s),
        trim_end_spec(s).len() > 0 ==> !is_unicode_whitespace(trim_end_spec(s).last()),
    decreases s.len(),
{
    if s.len() > 0 && is_unicode_whitespace(s.last()) {
        lemma_trim_end_blank(s.drop_last());
        if all_whitespace(s.drop_last()) {
            assert forall|i: int| 0 <= i < s.len() implies is_unicode_whitespace(#[trigger] s[i]) by {
                if i < s.len() - 1 {
                    assert(s.drop_last()[i] == s[i]);
                }
            }
        } else {
            let j = choose|j: int| 0 <= j < s.len() - 1 && !is_unicode_whitespace(s.drop_last()[j]);
            assert(s[j] == s.drop_last()[j]);
        }
    } else if s.len() > 0 {
        assert(!is_unicode_whitespace(s[s.len() - 1]));
    }
}

proof fn lemma_trim_start_keeps(t: Seq<char>)
    requires
        t.len() > 0,
        !is_unicode_whitespace(t.last()),
    ensures
        trim_start_spec(t).len() > 0,
    decreases t.len(),
{
    if is_unicode_whitespace(t[0]) {
        assert(t.len() > 1);
        assert(t.drop_first().last() == t.last());
        lemma_trim_start_keeps(t.drop_first());
    }
}

/// A text trims to nothing exactly when it is all whitespace.
pub proof fn lemma_trim_blank(s: Seq<char>)
    ensures
        (trim_spec(s).len() == 0) == all_whitespace(s),
{
    lemma_trim_end_blank(s);
    if trim_end_spec(s).len() > 0 {
        lemma_trim_start_keeps(trim_end_spec(s));
    }
}

} // verus!

verus! {

/// What `trim_end` keeps: a prefix of `s`, followed in `s` by whitespace
/// only, and not itself ending in whitespace.
pub proof fn lemma_trim_end_characterized(s: Seq<char>)
    ensures
        trim_end_spec(s).len() <= s.len(),
        trim_end_spec(s) == s.take(trim_end_spec(s).len() as int),
        forall|j: int|
            trim_end_spec(s).len() <= j < s.len() ==> is_unicode_whitespace(#[trigger] s[j]),
        trim_end_spec(s).len() > 0 ==> !is_unicode_whitespace(trim_end_spec(s).last()),
    decreases s.len(),
{
    if s.len() > 0 && is_unicode_whitespace(s.last()) {
        let p = s.drop_last();
        lemma_trim_end_characterized(p);
        let r = trim_end_spec(s);
        assert(r == trim_end_spec(p));
        assert(p.take(r.len() as int) =~= s.take(r.len() as int));
        assert forall|j: int| r.len() <= j < s.len() implies is_unicode_whitespace(#[trigger] s[j]) by {
            if j < s.len() - 1 {
                assert(p[j] == s[j]);
            }
        }
    } else {
        assert(s.take(s.len() as int) =~= s);
    }
}

/// What the leading trim keeps: a suffix of `s`, preceded in `s` by
/// whitespace only, and not itself starting with whitespace.
pub proof fn lemma_trim_start_characterized(s: Seq<char>)
    ensures
        trim_start_spec(s).len() <= s.len(),
        trim_start_spec(s) == s.skip(s.len() - trim_start_spec(s).len()),
        forall|j: int|
            0 <= j < s.len() - trim_start_spec(s).len() ==> is_unicode_whitespace(#[trigger] s[j]),
        trim_start_spec(s).len() > 0 ==> !is_unicode_whitespace(trim_start_spec(s)[0]),
    decreases s.len(),
{
    if s.len() > 0 && is_unicode_whitespace(s[0]) {
        let p = s.drop_first();
        lemma_trim_start_characterized(p);
        let r = trim_start_spec(s);
        assert(r == trim_start_spec(p));
        assert(p.skip(p.len() - r.len()) =~= s.skip(s.len() - r.len()));
        assert forall|j: int| 0 <= j < s.len() - r.len() implies is_unicode_whitespace(#[trigger] s[j]) by {
            if j > 0 {
                assert(p[j - 1] == s[j]);
            }
        }
    } else {
        assert(s.skip(0) =~= s);
    }
}

/// What `trim` keeps: the stretch of `s` from its first to its last
/// character that is not whitespace (nothing when there is none). Whatever
/// `s` starts with, everything before the stretch and after it is whitespace,
/// and the stretch neither starts nor ends with whitespace.
pub proof fn lemma_trim_characterized(s: Seq<char>)
    ensures
        trim_spec(s).len() <= s.len(),
        exists|a: int|
            #![trigger s.subrange(a, a + trim_spec(s).len())]
            0 <= a && a + trim_spec(s).len() <= s.len() && trim_spec(s) == s.subrange(
                a,
                a + trim_spec(s).len(),
            ) && (forall|j: int| 0 <= j < a ==> is_unicode_whitespace(#[trigger] s[j])) && (forall|
                j: int,
            |
                a + trim_spec(s).len() <= j < s.len() ==> is_unicode_whitespace(#[trigger] s[j])),
        trim_spec(s).len() > 0 ==> !is_unicode_whitespace(trim_spec(s)[0])
            && !is_unicode_whitespace(trim_spec(s).last()),
        (trim_spec(s).len() == 0) == all_whitespace(s),
{
    let u = trim_end_spec(s);
    lemma_trim_end_characterized(s);
    lemma_trim_start_characterized(u);
    lemma_trim_blank(s);
    let r = trim_spec(s);
    let k = u.len() as int;
    let a = k - r.len();
    assert(r == u.skip(a));
    assert(r =~= s.subrange(a, a + r.len()));
    assert forall|j: int| 0 <= j < a implies is_unicode_whitespace(#[trigger] s[j]) by {
        assert(u[j] == s[j]);
    }
    if r.len() > 0 {
        assert(r.last() == u.last());
    }
}

} // verus!
