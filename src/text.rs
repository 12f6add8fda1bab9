use vstd::prelude::*;

verus! {

/// Whitespace as `char::is_whitespace` defines it (the Unicode `White_Space` property).
pub open spec fn is_ws(c: char) -> bool {
    let u = c as u32;
    (0x09 <= u <= 0x0d) || u == 0x20 || u == 0x85 || u == 0xa0 || u == 0x1680 || (0x2000 <= u
        <= 0x200a) || u == 0x2028 || u == 0x2029 || u == 0x202f || u == 0x205f || u == 0x3000
}

/// `is_ws(c)`.
pub fn is_ws_char(c: char) -> (r: bool)
    ensures
        r == is_ws(c),
{
    let u = c as u32;
    (0x09 <= u && u <= 0x0d) || u == 0x20 || u == 0x85 || u == 0xa0 || u == 0x1680 || (0x2000
        <= u && u <= 0x200a) || u == 0x2028 || u == 0x2029 || u == 0x202f || u == 0x205f || u
        == 0x3000
}

/// The characters of a string slice, in order.
pub fn chars_of(s: &str) -> (r: Vec<char>)
    ensures
        r@ == s@,
{
    let mut r: Vec<char> = Vec::new();
    for c in it: s.chars()
        invariant
            r@ == it.seq().take(it.index() as int),
    {
        r.push(c);
    }
    r
}


/// `s` without its leading whitespace.
pub open spec fn trim_start(s: Seq<char>) -> Seq<char>
    decreases s.len(),
{
    if s.len() > 0 && is_ws(s[0]) {
        trim_start(s.drop_first())
    } else {
        s
    }
}

/// `s` without its trailing whitespace.
pub open spec fn trim_end(s: Seq<char>) -> Seq<char>
    decreases s.len(),
{
    if s.len() > 0 && is_ws(s.last()) {
        trim_end(s.drop_last())
    } else {
        s
    }
}

/// `s` without leading and trailing whitespace, as `str::trim` gives it.
pub open spec fn trim(s: Seq<char>) -> Seq<char> {
    trim_end(trim_start(s))
}

/// The pieces of `s` between occurrences of `sep`, as `str::split` with a `char` gives them:
/// there is always at least one piece, and two adjacent separators give an empty one.
pub open spec fn split_on(s: Seq<char>, sep: char) -> Seq<Seq<char>>
    decreases s.len(),
{
    if s.len() == 0 {
        seq![Seq::empty()]
    } else {
        let rest = split_on(s.drop_first(), sep);
        if s[0] == sep {
            seq![Seq::empty()] + rest
        } else {
            rest.update(0, seq![s[0]] + rest[0])
        }
    }
}

proof fn lemma_split_on_nonempty(s: Seq<char>, sep: char)
    ensures
        split_on(s, sep).len() >= 1,
    decreases s.len(),
{
    if s.len() > 0 {
        lemma_split_on_nonempty(s.drop_first(), sep);
    }
}

/// Copies `s[from..to]`.
pub fn copy_range(s: &Vec<char>, from: usize, to: usize) -> (r: Vec<char>)
    requires
        from <= to <= s@.len(),
    ensures
        r@ == s@.subrange(from as int, to as int),
{
    let mut r: Vec<char> = Vec::new();
    let mut i = from;
    while i < to
        invariant
            from <= i <= to <= s@.len(),
            r@ == s@.subrange(from as int, i as int),
        decreases to - i,
    {
        r.push(s[i]);
        i = i + 1;
        assert(r@ =~= s@.subrange(from as int, i as int));
    }
    r
}

/// `trim(s)`.
pub fn trim_chars(s: &Vec<char>) -> (r: Vec<char>)
    ensures
        r@ == trim(s@),
{
    let mut a: usize = 0;
    assert(s@.subrange(0, s@.len() as int) =~= s@);
    while a < s.len() && is_ws_char(s[a])
        invariant
            a <= s@.len(),
            trim_start(s@) == trim_start(s@.subrange(a as int, s@.len() as int)),
        decreases s@.len() - a,
    {
        assert(s@.subrange(a as int, s@.len() as int).drop_first() =~= s@.subrange(
            a + 1,
            s@.len() as int,
        ));
        a = a + 1;
    }
    let ghost t = s@.subrange(a as int, s@.len() as int);
    assert(trim_start(s@) == t) by {
        if t.len() > 0 {
            assert(t[0] == s@[a as int]);
        }
    }
    let mut b: usize = s.len();
    while b > a && is_ws_char(s[b - 1])
        invariant
            a <= b <= s@.len(),
            trim_end(t) == trim_end(s@.subrange(a as int, b as int)),
        decreases b,
    {
        assert(s@.subrange(a as int, b as int).drop_last() =~= s@.subrange(
            a as int,
            b - 1,
        ));
        b = b - 1;
    }
    copy_range(s, a, b)
}

/// `split_on(s, sep)`: the pieces, each as a vector of its own.
pub fn split_pieces(s: &Vec<char>, sep: char) -> (r: Vec<Vec<char>>)
    ensures
        r@.len() == split_on(s@, sep).len(),
        forall|k: int| 0 <= k < r@.len() ==> #[trigger] r@[k]@ == split_on(s@, sep)[k],
{
    let mut acc: Vec<Vec<char>> = Vec::new();
    let mut cur: Vec<char> = Vec::new();
    let mut i: usize = 0;
    proof {
        lemma_split_on_nonempty(s@, sep);
        assert(s@.subrange(0, s@.len() as int) =~= s@);
        let p = split_on(s@, sep);
        assert(p.update(0, cur@ + p[0]) =~= p);
    }
    while i < s.len()
        invariant
            i <= s@.len(),
            ({
                let rest = split_on(s@.subrange(i as int, s@.len() as int), sep);
                &&& rest.len() >= 1
                &&& split_on(s@, sep) == acc@.map_values(|v: Vec<char>| v@) + rest.update(
                    0,
                    cur@ + rest[0],
                )
            }),
        decreases s@.len() - i,
    {
        let ghost x = s@.subrange(i as int, s@.len() as int);
        let ghost y = s@.subrange(i + 1, s@.len() as int);
        proof {
            assert(x.drop_first() =~= y);
            lemma_split_on_nonempty(y, sep);
        }
        let ghost old_acc = acc@.map_values(|v: Vec<char>| v@);
        let ghost old_cur = cur@;
        let c = s[i];
        if c == sep {
            let done = cur;
            acc.push(done);
            cur = Vec::new();
            proof {
                let ry = split_on(y, sep);
                assert(acc@.map_values(|v: Vec<char>| v@) =~= old_acc.push(old_cur));
                assert(ry.update(0, cur@ + ry[0]) =~= ry);
                assert(split_on(x, sep) == seq![Seq::<char>::empty()] + ry);
                assert((seq![Seq::<char>::empty()] + ry).update(0, old_cur + Seq::<char>::empty())
                    =~= seq![old_cur] + ry);
                assert(old_acc + (seq![old_cur] + ry) =~= old_acc.push(old_cur) + ry);
            }
        } else {
            cur.push(c);
            proof {
                let ry = split_on(y, sep);
                assert(split_on(x, sep) == ry.update(0, seq![c] + ry[0]));
                assert(old_cur + (seq![c] + ry[0]) =~= cur@ + ry[0]);
                assert(ry.update(0, seq![c] + ry[0]).update(0, old_cur + (seq![c] + ry[0]))
                    =~= ry.update(0, cur@ + ry[0]));
            }
        }
        i = i + 1;
    }
    proof {
        let x = s@.subrange(i as int, s@.len() as int);
        assert(x =~= Seq::<char>::empty());
        assert(split_on(x, sep).update(0, cur@ + split_on(x, sep)[0]) =~= seq![cur@]);
    }
    let ghost before = acc@.map_values(|v: Vec<char>| v@);
    acc.push(cur);
    proof {
        assert(acc@.map_values(|v: Vec<char>| v@) =~= before + seq![cur@]);
    }
    acc
}


/// The first position at or after `p` where `needle` occurs in `hay`.
pub open spec fn find_from(hay: Seq<char>, needle: Seq<char>, p: int) -> Option<int>
    decreases hay.len() + 1 - p,
{
    if p < 0 || p + needle.len() > hay.len() {
        None
    } else if hay.subrange(p, p + needle.len()) == needle {
        Some(p)
    } else {
        find_from(hay, needle, p + 1)
    }
}

/// The first position where `needle` occurs in `hay`, as `str::find` gives it.
pub open spec fn find(hay: Seq<char>, needle: Seq<char>) -> Option<int> {
    find_from(hay, needle, 0)
}

/// `s` up to the first occurrence of `marker`; all of `s` where it does not occur.
pub open spec fn cut(s: Seq<char>, marker: Seq<char>) -> Seq<char> {
    match find(s, marker) {
        Some(p) => s.subrange(0, p),
        None => s,
    }
}

/// A match that `find_from` reports lies at or after `p`, within `hay`.
pub(crate) proof fn lemma_find_from_bounds(hay: Seq<char>, needle: Seq<char>, p: int)
    ensures
        find_from(hay, needle, p) matches Some(q) ==> p <= q && q + needle.len() <= hay.len()
            && hay.subrange(q, q + needle.len()) == needle,
    decreases hay.len() + 1 - p,
{
    if !(p < 0 || p + needle.len() > hay.len()) && hay.subrange(p, p + needle.len()) != needle {
        lemma_find_from_bounds(hay, needle, p + 1);
    }
}

/// Whether `needle` occurs in `hay` at position `p`.
fn occurs_at(hay: &Vec<char>, needle: &Vec<char>, p: usize) -> (r: bool)
    requires
        p + needle@.len() <= hay@.len(),
    ensures
        r == (hay@.subrange(p as int, p + needle@.len()) == needle@),
{
    let n = hay.len();
    let mut k: usize = 0;
    while k < needle.len()
        invariant
            n == hay@.len(),
            k <= needle@.len(),
            p + needle@.len() <= hay@.len(),
            forall|m: int| 0 <= m < k ==> hay@[p + m] == needle@[m],
        decreases needle@.len() - k,
    {
        assert(p + k < hay@.len());
        if hay[p + k] != needle[k] {
            assert(hay@.subrange(p as int, p + needle@.len())[k as int] != needle@[k as int]);
            return false;
        }
        k = k + 1;
    }
    assert(hay@.subrange(p as int, p + needle@.len()) =~= needle@);
    true
}

/// `find_from(hay, needle, from)`.
pub fn find_chars(hay: &Vec<char>, needle: &Vec<char>, from: usize) -> (r: Option<usize>)
    ensures
        match r {
            Some(q) => find_from(hay@, needle@, from as int) == Some(q as int),
            None => find_from(hay@, needle@, from as int) is None,
        },
{
    if needle.len() > hay.len() {
        return None;
    }
    let last = hay.len() - needle.len();
    let mut p = from;
    while p <= last
        invariant
            last + needle@.len() == hay@.len(),
            from <= p,
            find_from(hay@, needle@, from as int) == find_from(hay@, needle@, p as int),
        decreases hay@.len() + 1 - p,
    {
        if occurs_at(hay, needle, p) {
            return Some(p);
        }
        if p == last {
            assert(find_from(hay@, needle@, p + 1) is None);
            return None;
        }
        p = p + 1;
    }
    None
}

/// `cut(s, marker)`.
pub fn cut_chars(s: &Vec<char>, marker: &Vec<char>) -> (r: Vec<char>)
    ensures
        r@ == cut(s@, marker@),
{
    match find_chars(s, marker, 0) {
        Some(p) => {
            proof {
                lemma_find_from_bounds(s@, marker@, 0);
            }
            copy_range(s, 0, p)
        },
        None => copy_range(s, 0, s.len()),
    }
}

/// Where the last piece of `s` between occurrences of `sep` begins.
pub open spec fn segment_start(s: Seq<char>, sep: char) -> int
    decreases s.len(),
{
    if s.len() == 0 {
        0
    } else if s.last() == sep {
        s.len() as int
    } else {
        segment_start(s.drop_last(), sep)
    }
}

/// What follows the last occurrence of `sep` in `s`; all of `s` where it does not occur.
pub open spec fn last_segment(s: Seq<char>, sep: char) -> Seq<char> {
    s.subrange(segment_start(s, sep), s.len() as int)
}

proof fn lemma_segment_start_bounds(s: Seq<char>, sep: char)
    ensures
        0 <= segment_start(s, sep) <= s.len(),
    decreases s.len(),
{
    if s.len() > 0 && s.last() != sep {
        lemma_segment_start_bounds(s.drop_last(), sep);
    }
}

/// `last_segment(s, sep)`.
pub fn last_segment_chars(s: &Vec<char>, sep: char) -> (r: Vec<char>)
    ensures
        r@ == last_segment(s@, sep),
{
    let mut start: usize = 0;
    let mut i: usize = 0;
    while i < s.len()
        invariant
            i <= s@.len(),
            start == segment_start(s@.subrange(0, i as int), sep),
        decreases s@.len() - i,
    {
        assert(s@.subrange(0, i + 1).drop_last() =~= s@.subrange(0, i as int));
        if s[i] == sep {
            start = i + 1;
        }
        i = i + 1;
    }
    assert(s@.subrange(0, s@.len() as int) =~= s@);
    proof {
        lemma_segment_start_bounds(s@, sep);
    }
    copy_range(s, start, s.len())
}


/// An ASCII decimal digit.
pub open spec fn is_digit(c: char) -> bool {
    48 <= (c as u32) <= 57
}

/// An ASCII letter.
pub open spec fn is_alpha(c: char) -> bool {
    (65 <= (c as u32) <= 90) || (97 <= (c as u32) <= 122)
}

/// An ASCII letter or digit, or `_`.
pub open spec fn is_word(c: char) -> bool {
    is_alpha(c) || is_digit(c) || c == '_'
}

/// Classes of characters that the line grammar skips over.
#[derive(Clone, Copy)]
pub enum CharClass {
    Space,
    Alpha,
    Alnum,
    Underscore,
    Colon,
}

/// Whether `c` belongs to class `k`.
pub open spec fn in_class(k: CharClass, c: char) -> bool {
    match k {
        CharClass::Space => is_ws(c),
        CharClass::Alpha => is_alpha(c),
        CharClass::Alnum => is_alpha(c) || is_digit(c),
        CharClass::Underscore => c == '_',
        CharClass::Colon => c == ':',
    }
}

/// `in_class(k, c)`.
pub fn in_class_char(k: CharClass, c: char) -> (r: bool)
    ensures
        r == in_class(k, c),
{
    let u = c as u32;
    match k {
        CharClass::Space => is_ws_char(c),
        CharClass::Alpha => (65 <= u && u <= 90) || (97 <= u && u <= 122),
        CharClass::Alnum => (65 <= u && u <= 90) || (97 <= u && u <= 122) || (48 <= u && u <= 57),
        CharClass::Underscore => c == '_',
        CharClass::Colon => c == ':',
    }
}

/// The first position at or after `i` that holds no character of class `k`.
pub open spec fn skip(s: Seq<char>, i: int, k: CharClass) -> int
    decreases s.len() - i,
{
    if 0 <= i < s.len() && in_class(k, s[i]) {
        skip(s, i + 1, k)
    } else {
        i
    }
}

/// `skip(s, i, k)`.
pub fn skip_class(s: &Vec<char>, i: usize, k: CharClass) -> (r: usize)
    requires
        i <= s@.len(),
    ensures
        r == skip(s@, i as int, k),
        i <= r <= s@.len(),
{
    let mut j = i;
    while j < s.len() && in_class_char(k, s[j])
        invariant
            i <= j <= s@.len(),
            skip(s@, i as int, k) == skip(s@, j as int, k),
        decreases s@.len() - j,
    {
        j = j + 1;
    }
    j
}

/// The length of a compiler decoration (`$` and two or three word characters and `$`)
/// at the start of `s`, the shorter form tried first; 0 where none stands there.
pub open spec fn decoration_len(s: Seq<char>) -> int {
    if s.len() >= 4 && s[0] == '$' && is_word(s[1]) && is_word(s[2]) && s[3] == '$' {
        4
    } else if s.len() >= 5 && s[0] == '$' && is_word(s[1]) && is_word(s[2]) && is_word(s[3])
        && s[4] == '$' {
        5
    } else {
        0
    }
}

/// `s` with every compiler decoration removed, scanning from the left without overlaps.
pub open spec fn strip_decoration(s: Seq<char>) -> Seq<char>
    decreases s.len(),
{
    if s.len() == 0 {
        s
    } else if decoration_len(s) > 0 {
        strip_decoration(s.skip(decoration_len(s)))
    } else {
        seq![s[0]] + strip_decoration(s.drop_first())
    }
}

fn is_word_char(c: char) -> (r: bool)
    ensures
        r == is_word(c),
{
    in_class_char(CharClass::Alnum, c) || c == '_'
}

fn decoration_len_at(s: &Vec<char>, i: usize) -> (r: usize)
    requires
        i <= s@.len(),
    ensures
        r == decoration_len(s@.skip(i as int)),
{
    let n = s.len();
    if n - i >= 4 && s[i] == '$' && is_word_char(s[i + 1]) && is_word_char(s[i + 2]) && s[i + 3]
        == '$' {
        4
    } else if n - i >= 5 && s[i] == '$' && is_word_char(s[i + 1]) && is_word_char(s[i + 2])
        && is_word_char(s[i + 3]) && s[i + 4] == '$' {
        5
    } else {
        0
    }
}

/// `strip_decoration(s)`.
pub fn strip_decoration_chars(s: &Vec<char>) -> (r: Vec<char>)
    ensures
        r@ == strip_decoration(s@),
{
    let mut acc: Vec<char> = Vec::new();
    let mut i: usize = 0;
    assert(s@.skip(0) =~= s@);
    while i < s.len()
        invariant
            i <= s@.len(),
            strip_decoration(s@) == acc@ + strip_decoration(s@.skip(i as int)),
        decreases s@.len() - i,
    {
        let d = decoration_len_at(s, i);
        let ghost x = s@.skip(i as int);
        if d > 0 {
            assert(x.skip(d as int) =~= s@.skip(i + d));
            i = i + d;
        } else {
            let ghost old_acc = acc@;
            acc.push(s[i]);
            assert(x.drop_first() =~= s@.skip(i + 1));
            assert(old_acc + (seq![s@[i as int]] + strip_decoration(s@.skip(i + 1))) =~= acc@
                + strip_decoration(s@.skip(i + 1)));
            i = i + 1;
        }
    }
    assert(s@.skip(i as int) =~= Seq::<char>::empty());
    assert(acc@ + Seq::<char>::empty() =~= acc@);
    acc
}


/// Whether a character is anything but a thousands separator.
pub open spec fn not_comma() -> spec_fn(char) -> bool {
    |c: char| c != ','
}

/// `s` without its thousands separators.
pub open spec fn strip_commas(s: Seq<char>) -> Seq<char> {
    s.filter(not_comma())
}

/// `s` holds decimal digits only.
pub open spec fn all_digits(s: Seq<char>) -> bool {
    forall|i: int| 0 <= i < s.len() ==> is_digit(#[trigger] s[i])
}

/// The number that a string of decimal digits denotes.
pub open spec fn decimal_value(s: Seq<char>) -> nat
    decreases s.len(),
{
    if s.len() == 0 {
        0
    } else {
        decimal_value(s.drop_last()) * 10 + ((s.last() as u32) - 48) as nat
    }
}

/// The count that a metric field holds: surrounding whitespace and thousands separators
/// are dropped, and what is left must be a decimal integer that fits in 64 bits.
pub open spec fn count_of(tok: Seq<char>) -> Option<u64> {
    let d = strip_commas(trim(tok));
    if d.len() > 0 && all_digits(d) && decimal_value(d) <= u64::MAX {
        Some(decimal_value(d) as u64)
    } else {
        None
    }
}

proof fn lemma_decimal_value_prefix(s: Seq<char>, i: int)
    requires
        0 <= i <= s.len(),
        all_digits(s),
    ensures
        decimal_value(s.take(i)) <= decimal_value(s),
    decreases s.len() - i,
{
    if i < s.len() {
        lemma_decimal_value_prefix(s, i + 1);
        assert(s.take(i + 1).drop_last() =~= s.take(i));
    } else {
        assert(s.take(i) =~= s);
    }
}

/// `count_of(tok)`.
pub fn parse_count(tok: &Vec<char>) -> (r: Option<u64>)
    ensures
        r == count_of(tok@),
{
    let t = trim_chars(tok);
    let mut d: Vec<char> = Vec::new();
    let mut i: usize = 0;
    while i < t.len()
        invariant
            i <= t@.len(),
            d@ == strip_commas(t@.take(i as int)),
        decreases t@.len() - i,
    {
        proof {
            assert(t@.take(i + 1) =~= t@.take(i as int).push(t@[i as int]));
            t@.take(i as int).lemma_filter_push(t@[i as int], not_comma());
        }
        if t[i] != ',' {
            d.push(t[i]);
        }
        i = i + 1;
    }
    assert(t@.take(t@.len() as int) =~= t@);
    if d.len() == 0 {
        return None;
    }
    let mut k: usize = 0;
    while k < d.len()
        invariant
            k <= d@.len(),
            d@ == strip_commas(trim(tok@)),
            forall|m: int| 0 <= m < k ==> is_digit(#[trigger] d@[m]),
        decreases d@.len() - k,
    {
        let u = d[k] as u32;
        if !(48 <= u && u <= 57) {
            assert(!is_digit(d@[k as int]));
            return None;
        }
        k = k + 1;
    }
    let mut value: u64 = 0;
    let mut j: usize = 0;
    assert(d@.take(0) =~= Seq::<char>::empty());
    while j < d.len()
        invariant
            j <= d@.len(),
            d@ == strip_commas(trim(tok@)),
            all_digits(d@),
            value == decimal_value(d@.take(j as int)),
        decreases d@.len() - j,
    {
        let digit = (d[j] as u32 - 48) as u64;
        assert(d@.take(j + 1).drop_last() =~= d@.take(j as int));
        if value > (u64::MAX - digit) / 10 {
            proof {
                lemma_decimal_value_prefix(d@, j + 1);
                let x = d@.take(j + 1);
                assert(x.last() == d@[j as int]);
                assert(decimal_value(x) == value * 10 + digit);
                assert(value * 10 + digit > u64::MAX) by (nonlinear_arith)
                    requires
                        value > (u64::MAX - digit) / 10,
                        digit <= 9,
                ;
            }
            return None;
        }
        assert(value * 10 + digit <= u64::MAX) by (nonlinear_arith)
            requires
                value <= (u64::MAX - digit) / 10,
                digit <= 9,
        ;
        assert(d@.take(j + 1).last() == d@[j as int]);
        value = value * 10 + digit;
        j = j + 1;
    }
    assert(d@.take(d@.len() as int) =~= d@);
    Some(value)
}


/// Relies on `String::push`: appends one character.
#[verifier::external_body]
fn push_char(s: &mut String, c: char)
    ensures
        final(s)@ == old(s)@.push(c),
{
    s.push(c)
}

/// A `String` holding the characters of `v`.
pub fn string_of(v: &Vec<char>) -> (r: String)
    ensures
        r@ == v@,
{
    let mut r = String::new();
    let mut i: usize = 0;
    while i < v.len()
        invariant
            i <= v@.len(),
            r@ == v@.take(i as int),
        decreases v@.len() - i,
    {
        push_char(&mut r, v[i]);
        i = i + 1;
        assert(r@ =~= v@.take(i as int));
    }
    assert(v@.take(v@.len() as int) =~= v@);
    r
}

/// The views of a sequence of strings.
pub open spec fn string_views(v: Seq<String>) -> Seq<Seq<char>> {
    v.map_values(|s: String| s@)
}

/// Appends the characters of `s`.
pub fn push_str(out: &mut Vec<char>, s: &str)
    ensures
        final(out)@ == old(out)@ + s@,
{
    let c = chars_of(s);
    push_chars(out, &c);
}

/// Appends `v`.
pub fn push_chars(out: &mut Vec<char>, v: &Vec<char>)
    ensures
        final(out)@ == old(out)@ + v@,
{
    let mut i: usize = 0;
    while i < v.len()
        invariant
            i <= v@.len(),
            out@ == old(out)@ + v@.take(i as int),
        decreases v@.len() - i,
    {
        out.push(v[i]);
        i = i + 1;
        assert(out@ =~= old(out)@ + v@.take(i as int));
    }
    assert(v@.take(v@.len() as int) =~= v@);
}

} // verus!
