use vstd::prelude::*;
use crate::text::{
    CharClass, copy_range, count_of, cut, cut_chars, find, find_chars, is_digit, last_segment,
    last_segment_chars, lemma_find_from_bounds, parse_count, skip, skip_class, split_on,
    split_pieces, strip_decoration, strip_decoration_chars, trim, trim_chars,
};

verus! {

/// How many metric fields a line of the multi-metric (cache) report carries.
pub const CACHE_FIELDS: usize = 9;

/// At position `c`, a path fragment begins: a `?`, or colons followed by a `/`.
pub open spec fn path_follows(s: Seq<char>, c: int) -> bool {
    (0 <= c < s.len() && s[c] == '?') || ({
        let d = skip(s, c, CharClass::Colon);
        0 <= d < s.len() && s[d] == '/'
    })
}

/// A cache report line has, somewhere, a digit followed by optional whitespace,
/// optional letters, optional underscores and then a path fragment.
pub open spec fn cache_line_at(s: Seq<char>, i: int) -> bool {
    &&& 0 <= i < s.len()
    &&& is_digit(s[i])
    &&& path_follows(
        s,
        skip(
            s,
            skip(s, skip(s, i + 1, CharClass::Space), CharClass::Alpha),
            CharClass::Underscore,
        ),
    )
}

/// Whether a line of the multi-metric report carries data.
pub open spec fn is_cache_data_line(s: Seq<char>) -> bool {
    exists|i: int| cache_line_at(s, i)
}

/// `s[a..b]` lies within `s` and holds digits only.
pub open spec fn digits_between(s: Seq<char>, a: int, b: int) -> bool {
    &&& 0 <= a <= b <= s.len()
    &&& forall|k: int| a <= k < b ==> is_digit(#[trigger] s[k])
}

/// `s[p..q]` is a number with thousands separators: one to three digits, then any
/// number of groups of a comma and three digits.
pub open spec fn number_ends(s: Seq<char>, p: int, q: int) -> bool
    decreases q - p,
{
    if 1 <= q - p <= 3 {
        digits_between(s, p, q)
    } else if q - p >= 5 {
        &&& digits_between(s, q - 3, q)
        &&& s[q - 4] == ','
        &&& number_ends(s, p, q - 4)
    } else {
        false
    }
}

/// From position `q` on, a single-metric line goes on with optional whitespace, optional
/// letters or digits, optional underscores and then a path fragment.
pub open spec fn call_tail(s: Seq<char>, q: int) -> bool {
    path_follows(
        s,
        skip(
            s,
            skip(s, skip(s, q, CharClass::Space), CharClass::Alnum),
            CharClass::Underscore,
        ),
    )
}

/// Whether a line of the single-metric (call) report carries data: after leading
/// whitespace it starts with a number with thousands separators, then a path fragment
/// as `call_tail` describes it.
pub open spec fn is_call_data_line(s: Seq<char>) -> bool {
    let p = skip(s, 0, CharClass::Space);
    exists|q: int| number_ends(s, p, q) && call_tail(s, q)
}

fn path_follows_at(s: &Vec<char>, c: usize) -> (r: bool)
    requires
        c <= s@.len(),
    ensures
        r == path_follows(s@, c as int),
{
    if c < s.len() && s[c] == '?' {
        return true;
    }
    let d = skip_class(s, c, CharClass::Colon);
    d < s.len() && s[d] == '/'
}

/// `is_cache_data_line(s)`.
pub fn is_cache_data_line_chars(s: &Vec<char>) -> (r: bool)
    ensures
        r == is_cache_data_line(s@),
{
    let mut i: usize = 0;
    while i < s.len()
        invariant
            i <= s@.len(),
            forall|m: int| 0 <= m < i ==> !cache_line_at(s@, m),
        decreases s@.len() - i,
    {
        let u = s[i] as u32;
        if 48 <= u && u <= 57 {
            let a = skip_class(s, i + 1, CharClass::Space);
            let b = skip_class(s, a, CharClass::Alpha);
            let c = skip_class(s, b, CharClass::Underscore);
            if path_follows_at(s, c) {
                assert(cache_line_at(s@, i as int));
                return true;
            }
        }
        i = i + 1;
    }
    false
}

fn digits_between_chars(s: &Vec<char>, a: usize, b: usize) -> (r: bool)
    requires
        a <= b <= s@.len(),
    ensures
        r == digits_between(s@, a as int, b as int),
{
    let mut k = a;
    while k < b
        invariant
            a <= k <= b <= s@.len(),
            forall|m: int| a <= m < k ==> is_digit(#[trigger] s@[m]),
        decreases b - k,
    {
        let u = s[k] as u32;
        if !(48 <= u && u <= 57) {
            assert(!is_digit(s@[k as int]));
            return false;
        }
        k = k + 1;
    }
    true
}

fn number_ends_chars(s: &Vec<char>, p: usize, q: usize) -> (r: bool)
    requires
        p <= q <= s@.len(),
    ensures
        r == number_ends(s@, p as int, q as int),
    decreases q - p,
{
    if 1 <= q - p && q - p <= 3 {
        digits_between_chars(s, p, q)
    } else if q - p >= 5 {
        digits_between_chars(s, q - 3, q) && s[q - 4] == ',' && number_ends_chars(s, p, q - 4)
    } else {
        false
    }
}

proof fn lemma_number_ends_bounds(s: Seq<char>, p: int, q: int)
    requires
        number_ends(s, p, q),
    ensures
        p < q <= s.len(),
    decreases q - p,
{
    if q - p >= 5 {
        lemma_number_ends_bounds(s, p, q - 4);
    }
}

/// `is_call_data_line(s)`.
pub fn is_call_data_line_chars(s: &Vec<char>) -> (r: bool)
    ensures
        r == is_call_data_line(s@),
{
    let p = skip_class(s, 0, CharClass::Space);
    let n = s.len();
    let mut k = p;
    while k < n
        invariant
            n == s@.len(),
            p <= k <= n,
            p == skip(s@, 0, CharClass::Space),
            forall|m: int| p < m <= k ==> !(number_ends(s@, p as int, m) && call_tail(s@, m)),
        decreases n - k,
    {
        let q = k + 1;
        if number_ends_chars(s, p, q) {
            let a = skip_class(s, q, CharClass::Space);
            let b = skip_class(s, a, CharClass::Alnum);
            let c = skip_class(s, b, CharClass::Underscore);
            if path_follows_at(s, c) {
                assert(number_ends(s@, p as int, q as int) && call_tail(s@, q as int));
                return true;
            }
        }
        k = q;
    }
    assert forall|m: int| !(number_ends(s@, p as int, m) && call_tail(s@, m)) by {
        if number_ends(s@, p as int, m) {
            lemma_number_ends_bounds(s@, p as int, m);
        }
    }
    false
}


/// The views of a sequence of character vectors.
pub open spec fn views(v: Seq<Vec<char>>) -> Seq<Seq<char>> {
    v.map_values(|x: Vec<char>| x@)
}

/// Whether a piece of a split holds any character.
pub open spec fn nonempty_piece() -> spec_fn(Seq<char>) -> bool {
    |t: Seq<char>| t.len() > 0
}

/// The fields of a line: the trimmed line split at single spaces, empty pieces dropped.
pub open spec fn tokens(s: Seq<char>) -> Seq<Seq<char>> {
    split_on(trim(s), ' ').filter(nonempty_piece())
}

/// A function name without compiler decoration, cut at the first `::`.
pub open spec fn clean_name(raw: Seq<char>) -> Seq<char> {
    cut(strip_decoration(raw), seq![':', ':'])
}

/// The metric fields and the function name of a multi-metric data line: the first nine
/// fields are counts; the name is the last path segment of what follows the first
/// occurrence of the tenth field's text in the line, cleaned. `None` where a field is
/// missing or is no count.
pub open spec fn cache_row(line: Seq<char>) -> Option<(Seq<u64>, Seq<char>)> {
    let t = tokens(line);
    if t.len() <= CACHE_FIELDS || exists|k: int|
        0 <= k < CACHE_FIELDS && #[trigger] count_of(t[k]) is None {
        None
    } else {
        match find(line, t[CACHE_FIELDS as int]) {
            None => None,
            Some(p) => Some(
                (
                    Seq::new(CACHE_FIELDS as nat, |k: int| count_of(t[k])->Some_0),
                    clean_name(last_segment(line.skip(p), '/')),
                ),
            ),
        }
    }
}

/// The first word of `s`: leading whitespace skipped, then up to the next space.
pub open spec fn first_word(s: Seq<char>) -> Seq<char> {
    cut(s.skip(skip(s, 0, CharClass::Space)), seq![' '])
}

/// The count and the function name of a single-metric data line: the count stands
/// before the first double space of the trimmed line; the name is the last path
/// segment of the first word after it (further whitespace skipped, the word ending
/// at the next space), cleaned. `None` where there is no double space or no count.
pub open spec fn call_row(line: Seq<char>) -> Option<(u64, Seq<char>)> {
    let t = trim(line);
    match find(t, seq![' ', ' ']) {
        None => None,
        Some(p) => match count_of(t.take(p)) {
            None => None,
            Some(v) => Some(
                (
                    v,
                    clean_name(
                        last_segment(first_word(t.skip(p + 2)), '/'),
                    ),
                ),
            ),
        },
    }
}

/// `tokens(s)`.
pub fn tokens_of(s: &Vec<char>) -> (r: Vec<Vec<char>>)
    ensures
        views(r@) == tokens(s@),
{
    let t = trim_chars(s);
    let pieces = split_pieces(&t, ' ');
    let ghost sp = split_on(t@, ' ');
    assert(views(pieces@) =~= sp);
    let mut r: Vec<Vec<char>> = Vec::new();
    let mut k: usize = 0;
    assert(sp.take(0) =~= Seq::<Seq<char>>::empty());
    while k < pieces.len()
        invariant
            k <= pieces@.len(),
            views(pieces@) == sp,
            views(r@) == sp.take(k as int).filter(nonempty_piece()),
        decreases pieces@.len() - k,
    {
        proof {
            assert(sp.take(k + 1) =~= sp.take(k as int).push(sp[k as int]));
            sp.take(k as int).lemma_filter_push(sp[k as int], nonempty_piece());
            assert(pieces@[k as int]@ == sp[k as int]);
        }
        let ghost before = views(r@);
        if pieces[k].len() > 0 {
            let piece = copy_range(&pieces[k], 0, pieces[k].len());
            assert(piece@ =~= pieces@[k as int]@);
            r.push(piece);
            assert(views(r@) =~= before.push(sp[k as int]));
        }
        k = k + 1;
    }
    assert(sp.take(pieces@.len() as int) =~= sp);
    r
}

/// `clean_name(raw)`.
pub fn clean_name_chars(raw: &Vec<char>) -> (r: Vec<char>)
    ensures
        r@ == clean_name(raw@),
{
    let stripped = strip_decoration_chars(raw);
    let marker = vec![':', ':'];
    assert(marker@ =~= seq![':', ':']);
    cut_chars(&stripped, &marker)
}

/// `cache_row(line)`.
pub fn cache_row_chars(line: &Vec<char>) -> (r: Option<(Vec<u64>, Vec<char>)>)
    ensures
        match r {
            None => cache_row(line@) is None,
            Some((v, name)) => cache_row(line@) == Some((v@, name@)),
        },
{
    let t = tokens_of(line);
    let ghost ts = tokens(line@);
    assert(t@.len() == ts.len());
    if t.len() <= CACHE_FIELDS {
        return None;
    }
    let mut values: Vec<u64> = Vec::new();
    let mut k: usize = 0;
    while k < CACHE_FIELDS
        invariant
            k <= CACHE_FIELDS < t@.len(),
            views(t@) == ts,
            ts == tokens(line@),
            values@.len() == k,
            forall|m: int| 0 <= m < k ==> #[trigger] count_of(ts[m]) == Some(values@[m]),
        decreases CACHE_FIELDS - k,
    {
        assert(t@[k as int]@ == ts[k as int]);
        match parse_count(&t[k]) {
            None => {
                assert(count_of(ts[k as int]) is None);
                return None;
            },
            Some(v) => {
                values.push(v);
            },
        }
        k = k + 1;
    }
    assert(t@[CACHE_FIELDS as int]@ == ts[CACHE_FIELDS as int]);
    match find_chars(line, &t[CACHE_FIELDS], 0) {
        None => None,
        Some(p) => {
            proof {
                lemma_find_from_bounds(line@, ts[CACHE_FIELDS as int], 0);
            }
            let rest = copy_range(line, p, line.len());
            assert(rest@ =~= line@.skip(p as int));
            let seg = last_segment_chars(&rest, '/');
            let name = clean_name_chars(&seg);
            assert(values@ =~= Seq::new(
                CACHE_FIELDS as nat,
                |m: int| count_of(ts[m])->Some_0,
            ));
            Some((values, name))
        },
    }
}

/// `call_row(line)`.
pub fn call_row_chars(line: &Vec<char>) -> (r: Option<(u64, Vec<char>)>)
    ensures
        match r {
            None => call_row(line@) is None,
            Some((v, name)) => call_row(line@) == Some((v, name@)),
        },
{
    let t = trim_chars(line);
    let gap = vec![' ', ' '];
    assert(gap@ =~= seq![' ', ' ']);
    match find_chars(&t, &gap, 0) {
        None => None,
        Some(p) => {
            proof {
                lemma_find_from_bounds(t@, gap@, 0);
                assert(gap@.len() == 2);
                assert(p + 2 <= t.len());
            }
            let head = copy_range(&t, 0, p);
            assert(head@ =~= t@.take(p as int));
            match parse_count(&head) {
                None => None,
                Some(v) => {
                    let rest = copy_range(&t, p + 2, t.len());
                    assert(rest@ =~= t@.skip(p + 2));
                    let start = skip_class(&rest, 0, CharClass::Space);
                    let tail = copy_range(&rest, start, rest.len());
                    assert(tail@ =~= rest@.skip(start as int));
                    let space = vec![' '];
                    assert(space@ =~= seq![' ']);
                    let word = cut_chars(&tail, &space);
                    let seg = last_segment_chars(&word, '/');
                    let name = clean_name_chars(&seg);
                    Some((v, name))
                },
            }
        },
    }
}

} // verus!
