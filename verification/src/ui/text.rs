//! Text helpers over the characters of strings: blank input, words split at
//! whitespace, prefixes, substrings and lower case.
use vstd::prelude::*;
use vstd::std_specs::iter::IteratorSpec;

verus! {

broadcast use vstd::string::group_string_axioms;

/// The characters of each string of `v`.
pub open spec fn char_views(v: Seq<Vec<char>>) -> Seq<Seq<char>> {
    v.map_values(|w: Vec<char>| w@)
}

/// The characters of each string of `v`.
pub open spec fn string_views(v: Seq<String>) -> Seq<Seq<char>> {
    v.map_values(|s: String| s@)
}

/// Whether `c` has the Unicode `White_Space` property.
pub open spec fn is_white_space(c: char) -> bool {
    let u = c as u32;
    ||| 0x09 <= u <= 0x0d
    ||| u == 0x20
    ||| u == 0x85
    ||| u == 0xa0
    ||| u == 0x1680
    ||| 0x2000 <= u <= 0x200a
    ||| u == 0x2028
    ||| u == 0x2029
    ||| u == 0x202f
    ||| u == 0x205f
    ||| u == 0x3000
}

/// `s` holds nothing but whitespace.
pub open spec fn is_blank(s: Seq<char>) -> bool {
    forall|i: int| 0 <= i < s.len() ==> is_white_space(#[trigger] s[i])
}

/// The words of `s`: its maximal runs of characters other than whitespace,
/// in order.
pub open spec fn split_words(s: Seq<char>) -> Seq<Seq<char>>
    decreases s.len(),
{
    if s.len() == 0 {
        Seq::empty()
    } else {
        let prev = split_words(s.drop_last());
        let c = s.last();
        if is_white_space(c) {
            prev
        } else if s.len() >= 2 && !is_white_space(s[s.len() - 2]) {
            prev.update(prev.len() - 1, prev.last().push(c))
        } else {
            prev.push(seq![c])
        }
    }
}

/// `p` is a prefix of `s`.
pub open spec fn has_prefix(s: Seq<char>, p: Seq<char>) -> bool {
    p.len() <= s.len() && s.subrange(0, p.len() as int) == p
}

/// `p` occurs in `s` as a run of consecutive characters.
pub open spec fn has_substring(s: Seq<char>, p: Seq<char>) -> bool {
    exists|i: int| 0 <= i <= s.len() - p.len() && #[trigger] s.subrange(i, i + p.len()) == p
}

/// The lower-case form of `s`, as Rust's Unicode tables give it.
pub uninterp spec fn lowercase(s: Seq<char>) -> Seq<char>;

/// Whether `c` has the Unicode `White_Space` property.
pub fn is_whitespace(c: char) -> (r: bool)
    ensures
        r == is_white_space(c),
{
    let u = c as u32;
    (0x09 <= u && u <= 0x0d) || u == 0x20 || u == 0x85 || u == 0xa0 || u == 0x1680 || (0x2000 <= u
        && u <= 0x200a) || u == 0x2028 || u == 0x2029 || u == 0x202f || u == 0x205f || u == 0x3000
}

/// The characters of `s`.
pub fn chars_of(s: &str) -> (r: Vec<char>)
    ensures
        r@ == s@,
{
    let mut out: Vec<char> = Vec::new();
    let mut it = s.chars();
    loop
        invariant
            out@ + IteratorSpec::remaining(&it) == s@,
        ensures
            out@ == s@,
        decreases s@.len() - out@.len(),
    {
        let ghost before = IteratorSpec::remaining(&it);
        match it.next() {
            Some(c) => {
                out.push(c);
                assert(out@ + IteratorSpec::remaining(&it) =~= s@) by {
                    assert(before =~= seq![c] + before.drop_first());
                }
            },
            None => {
                assert(out@ =~= s@);
                break ;
            },
        }
    }
    out
}

/// The string made of the characters `cs`.
///
/// Collects with `FromIterator<char>` for `String`, which appends the
/// characters in order.
#[verifier::external_body]
pub(crate) fn string_from_chars(cs: &Vec<char>) -> (s: String)
    ensures
        s@ == cs@,
{
    cs.iter().collect()
}

/// The lower-case form of `s`.
///
/// Calls `str::to_lowercase`; the result is named, as it depends on `s`
/// alone through Unicode's case tables.
#[verifier::external_body]
pub(crate) fn to_lowercase(s: &str) -> (r: String)
    ensures
        r@ == lowercase(s@),
{
    s.to_lowercase()
}

/// The lower-case form of the characters `cs`.
pub fn lowercase_chars(cs: &Vec<char>) -> (r: Vec<char>)
    ensures
        r@ == lowercase(cs@),
{
    let s = string_from_chars(cs);
    let l = to_lowercase(s.as_str());
    chars_of(l.as_str())
}

/// Whether two character strings are equal.
pub fn same_chars(a: &Vec<char>, b: &Vec<char>) -> (r: bool)
    ensures
        r == (a@ == b@),
{
    if a.len() != b.len() {
        return false;
    }
    let mut i: usize = 0;
    while i < a.len()
        invariant
            a.len() == b.len(),
            i <= a.len(),
            forall|j: int| 0 <= j < i ==> a@[j] == b@[j],
        decreases a.len() - i,
    {
        if a[i] != b[i] {
            return false;
        }
        i += 1;
    }
    assert(a@ =~= b@);
    true
}

/// Whether `p` is a prefix of `s`.
pub fn starts_with(s: &Vec<char>, p: &Vec<char>) -> (r: bool)
    ensures
        r == has_prefix(s@, p@),
{
    if p.len() > s.len() {
        return false;
    }
    let mut i: usize = 0;
    while i < p.len()
        invariant
            p.len() <= s.len(),
            i <= p.len(),
            forall|j: int| 0 <= j < i ==> s@[j] == p@[j],
        decreases p.len() - i,
    {
        if s[i] != p[i] {
            assert(s@.subrange(0, p.len() as int)[i as int] != p@[i as int]);
            return false;
        }
        i += 1;
    }
    assert(s@.subrange(0, p.len() as int) =~= p@);
    true
}

/// Whether `p` occurs in `s` as a run of consecutive characters.
pub fn contains_chars(s: &Vec<char>, p: &Vec<char>) -> (r: bool)
    ensures
        r == has_substring(s@, p@),
{
    if p.len() > s.len() {
        return false;
    }
    let last = s.len() - p.len();
    let mut i: usize = 0;
    while i <= last
        invariant
            p.len() <= s.len(),
            last == s.len() - p.len(),
            forall|k: int| 0 <= k < i ==> #[trigger] s@.subrange(k, k + p.len()) != p@,
        decreases last + 1 - i,
    {
        let mut j: usize = 0;
        let mut same = true;
        while j < p.len()
            invariant
                p.len() <= s.len(),
                i <= last,
                last == s.len() - p.len(),
                j <= p.len(),
                same == (forall|t: int| 0 <= t < j ==> s@[i + t] == p@[t]),
            decreases p.len() - j,
        {
            if s[i + j] != p[j] {
                same = false;
            }
            j += 1;
        }
        if same {
            assert(s@.subrange(i as int, i + p.len()) =~= p@);
            return true;
        }
        assert(s@.subrange(i as int, i + p.len()) != p@) by {
            let t = choose|t: int| 0 <= t < p.len() && s@[i + t] != p@[t];
            assert(s@.subrange(i as int, i + p.len())[t] == s@[i + t]);
        }
        if i == last {
            return false;
        }
        i += 1;
    }
    false
}

/// Whether `s` holds nothing but whitespace.
pub fn blank(s: &Vec<char>) -> (r: bool)
    ensures
        r == is_blank(s@),
{
    let mut i: usize = 0;
    while i < s.len()
        invariant
            i <= s.len(),
            forall|j: int| 0 <= j < i ==> is_white_space(#[trigger] s@[j]),
        decreases s.len() - i,
    {
        if !is_whitespace(s[i]) {
            return false;
        }
        i += 1;
    }
    true
}

/// A string of `s` that ends in something other than whitespace has a word.
pub proof fn lemma_split_words_nonempty(s: Seq<char>)
    requires
        s.len() > 0,
        !is_white_space(s.last()),
    ensures
        split_words(s).len() > 0,
    decreases s.len(),
{
    if s.len() >= 2 && !is_white_space(s[s.len() - 2]) {
        lemma_split_words_nonempty(s.drop_last());
    }
}

/// The words of `s`.
pub fn words(s: &Vec<char>) -> (r: Vec<Vec<char>>)
    ensures
        char_views(r@) == split_words(s@),
{
    let mut out: Vec<Vec<char>> = Vec::new();
    let mut prev_space = true;
    let mut i: usize = 0;
    proof {
        assert(s@.take(0) =~= Seq::<char>::empty());
        assert(char_views(out@) =~= split_words(s@.take(0)));
    }
    while i < s.len()
        invariant
            i <= s.len(),
            char_views(out@) == split_words(s@.take(i as int)),
            prev_space == (i == 0 || is_white_space(s@[i - 1])),
        decreases s.len() - i,
    {
        let c = s[i];
        let ghost t = s@.take(i as int);
        let ghost t1 = s@.take(i + 1);
        proof {
            assert(t1.drop_last() =~= t);
            assert(t1.last() == c);
            if i >= 1 {
                assert(t1[t1.len() - 2] == s@[i - 1]);
            }
        }
        if is_whitespace(c) {
            prev_space = true;
        } else if prev_space {
            let mut w: Vec<char> = Vec::new();
            w.push(c);
            out.push(w);
            proof {
                assert(char_views(out@) =~= split_words(t).push(seq![c]));
            }
            prev_space = false;
        } else {
            proof {
                lemma_split_words_nonempty(t);
            }
            let mut w = out.pop().unwrap();
            let ghost before = char_views(out@.push(w));
            w.push(c);
            out.push(w);
            proof {
                assert(char_views(out@) =~= split_words(t).update(
                    split_words(t).len() - 1,
                    split_words(t).last().push(c),
                ));
            }
        }
        i += 1;
    }
    proof {
        assert(s@.take(s.len() as int) =~= s@);
    }
    out
}

/// The words `ws` joined by single spaces.
pub open spec fn join_words(ws: Seq<Seq<char>>) -> Seq<char>
    decreases ws.len(),
{
    if ws.len() == 0 {
        Seq::empty()
    } else if ws.len() == 1 {
        ws[0]
    } else {
        join_words(ws.drop_last()) + seq![' '] + ws.last()
    }
}

/// The words of `ws` from `from` on, joined by single spaces.
pub fn join_words_from(ws: &Vec<Vec<char>>, from: usize) -> (r: Vec<char>)
    requires
        from <= ws.len(),
    ensures
        r@ == join_words(char_views(ws@).subrange(from as int, ws.len() as int)),
{
    let ghost v = char_views(ws@);
    let mut out: Vec<char> = Vec::new();
    let mut k: usize = from;
    proof {
        assert(v.subrange(from as int, from as int) =~= Seq::<Seq<char>>::empty());
    }
    while k < ws.len()
        invariant
            v == char_views(ws@),
            from <= k <= ws.len(),
            out@ == join_words(v.subrange(from as int, k as int)),
        decreases ws.len() - k,
    {
        let ghost sub = v.subrange(from as int, k + 1);
        proof {
            assert(sub.drop_last() =~= v.subrange(from as int, k as int));
            assert(sub.last() == ws@[k as int]@);
        }
        if k > from {
            out.push(' ');
        }
        let mut j: usize = 0;
        let ghost start = out@;
        while j < ws[k].len()
            invariant
                k < ws.len(),
                j <= ws@[k as int].len(),
                out@ == start + ws@[k as int]@.take(j as int),
            decreases ws@[k as int].len() - j,
        {
            out.push(ws[k][j]);
            assert(out@ =~= start + ws@[k as int]@.take(j + 1));
            j += 1;
        }
        proof {
            assert(ws@[k as int]@.take(j as int) =~= ws@[k as int]@);
            if k == from {
                assert(sub =~= seq![ws@[k as int]@]);
                assert(out@ =~= ws@[k as int]@);
            } else {
                assert(out@ =~= join_words(sub.drop_last()) + seq![' '] + sub.last());
            }
        }
        k += 1;
    }
    out
}

/// `c` is an ASCII decimal digit.
pub open spec fn is_digit(c: char) -> bool {
    0x30 <= (c as u32) <= 0x39
}

/// The number written by the decimal digits `d`.
pub open spec fn digits_value(d: Seq<char>) -> nat
    decreases d.len(),
{
    if d.len() == 0 {
        0
    } else {
        digits_value(d.drop_last()) * 10 + ((d.last() as u32) - 0x30) as nat
    }
}

/// What `str::parse::<usize>` gives for `s`: the number written by its
/// decimal digits, after an optional `+`, when there is at least one digit,
/// nothing else, and the number fits.
pub open spec fn parsed_usize(s: Seq<char>) -> Option<usize> {
    let d = unsigned_digits(s);
    if d.len() > 0 && all_digits(d) && digits_value(d) <= usize::MAX {
        Some(digits_value(d) as usize)
    } else {
        None
    }
}

/// `s` without one leading `+`.
pub open spec fn unsigned_digits(s: Seq<char>) -> Seq<char> {
    if s.len() > 0 && s[0] == '+' {
        s.drop_first()
    } else {
        s
    }
}

/// Every character of `d` is a decimal digit.
pub open spec fn all_digits(d: Seq<char>) -> bool {
    forall|i: int| 0 <= i < d.len() ==> is_digit(#[trigger] d[i])
}

/// More digits never write a smaller number.
pub proof fn lemma_digits_value_grows(d: Seq<char>, i: int)
    requires
        0 <= i <= d.len(),
        forall|k: int| 0 <= k < d.len() ==> is_digit(#[trigger] d[k]),
    ensures
        digits_value(d.take(i)) <= digits_value(d),
    decreases d.len() - i,
{
    if i < d.len() {
        lemma_digits_value_grows(d, i + 1);
        assert(d.take(i + 1).drop_last() =~= d.take(i));
        assert(is_digit(d[i]));
    } else {
        assert(d.take(i) =~= d);
    }
}

/// The number `s` writes, as `str::parse::<usize>` reads it.
pub fn parse_usize(s: &Vec<char>) -> (r: Option<usize>)
    ensures
        r == parsed_usize(s@),
{
    let start: usize = if s.len() > 0 && s[0] == '+' {
        1
    } else {
        0
    };
    let ghost d = unsigned_digits(s@);
    assert(d =~= s@.subrange(start as int, s.len() as int));
    if start >= s.len() {
        return None;
    }
    let mut i: usize = start;
    while i < s.len()
        invariant
            start <= i <= s.len(),
            d == s@.subrange(start as int, s.len() as int),
            d == unsigned_digits(s@),
            forall|k: int| start <= k < i ==> is_digit(#[trigger] s@[k]),
        decreases s.len() - i,
    {
        let u = s[i] as u32;
        if u < 0x30 || u > 0x39 {
            assert(d[i - start] == s@[i as int]);
            assert(!is_digit(d[i - start]));
            assert(!(forall|k: int| 0 <= k < d.len() ==> is_digit(#[trigger] d[k])));
            assert(parsed_usize(s@) is None);
            return None;
        }
        i += 1;
    }
    assert(forall|k: int| 0 <= k < d.len() ==> is_digit(#[trigger] d[k])) by {
        assert forall|k: int| 0 <= k < d.len() implies is_digit(#[trigger] d[k]) by {
            assert(d[k] == s@[start + k]);
        }
    }
    let mut value: usize = 0;
    let mut j: usize = start;
    while j < s.len()
        invariant
            start <= j <= s.len(),
            d == s@.subrange(start as int, s.len() as int),
            d == unsigned_digits(s@),
            forall|k: int| 0 <= k < d.len() ==> is_digit(#[trigger] d[k]),
            value == digits_value(d.take(j - start)),
        decreases s.len() - j,
    {
        proof {
            assert(d.take(j + 1 - start).drop_last() =~= d.take(j - start));
            assert(d.take(j + 1 - start).last() == s@[j as int]);
            assert(is_digit(d[j - start]));
        }
        let digit = (s[j] as u32 - 0x30) as usize;
        match value.checked_mul(10) {
            None => {
                proof {
                    lemma_digits_value_grows(d, j + 1 - start);
                    assert(digits_value(d.take(j + 1 - start)) == value * 10 + digit);
                    assert(digits_value(d) > usize::MAX);
                    assert(parsed_usize(s@) is None);
                }
                return None;
            },
            Some(v10) => match v10.checked_add(digit) {
                None => {
                    proof {
                        lemma_digits_value_grows(d, j + 1 - start);
                        assert(digits_value(d.take(j + 1 - start)) == value * 10 + digit);
                        assert(digits_value(d) > usize::MAX);
                        assert(parsed_usize(s@) is None);
                    }
                    return None;
                },
                Some(v) => {
                    value = v;
                },
            },
        }
        j += 1;
    }
    assert(d.take(j - start) =~= d);
    Some(value)
}

/// `s` cut at each newline: one more piece than there are newlines.
pub open spec fn split_newlines(s: Seq<char>) -> Seq<Seq<char>>
    decreases s.len(),
{
    if s.len() == 0 {
        seq![Seq::empty()]
    } else {
        let p = split_newlines(s.drop_last());
        let c = s.last();
        if c == '\n' {
            p.push(Seq::empty())
        } else {
            p.update(p.len() - 1, p.last().push(c))
        }
    }
}

/// `l` without one carriage return at its end.
pub open spec fn strip_cr(l: Seq<char>) -> Seq<char> {
    if l.len() > 0 && l.last() == '\r' {
        l.drop_last()
    } else {
        l
    }
}

/// Each of `ls` without one carriage return at its end.
pub open spec fn strip_all(ls: Seq<Seq<char>>) -> Seq<Seq<char>>
    decreases ls.len(),
{
    if ls.len() == 0 {
        Seq::empty()
    } else {
        strip_all(ls.drop_last()).push(strip_cr(ls.last()))
    }
}

/// The lines of `s`, as `str::lines` gives them: split at each `\n` or
/// `\r\n`, with no empty line after a final line ending.
pub open spec fn text_lines(s: Seq<char>) -> Seq<Seq<char>> {
    let p = split_newlines(s);
    let done = strip_all(p.drop_last());
    if p.last().len() == 0 {
        done
    } else {
        done.push(p.last())
    }
}

/// Cutting at newlines gives at least one piece.
pub proof fn lemma_split_newlines_len(s: Seq<char>)
    ensures
        split_newlines(s).len() >= 1,
    decreases s.len(),
{
    if s.len() > 0 {
        lemma_split_newlines_len(s.drop_last());
    }
}

/// `l` without one carriage return at its end.
fn strip_carriage_return(l: &Vec<char>) -> (r: Vec<char>)
    ensures
        r@ == strip_cr(l@),
{
    let mut out: Vec<char> = Vec::new();
    let n = if l.len() > 0 && l[l.len() - 1] == '\r' {
        l.len() - 1
    } else {
        l.len()
    };
    let mut i: usize = 0;
    while i < n
        invariant
            n <= l.len(),
            i <= n,
            out@ == l@.take(i as int),
        decreases n - i,
    {
        out.push(l[i]);
        assert(out@ =~= l@.take(i + 1));
        i += 1;
    }
    assert(out@ =~= strip_cr(l@));
    out
}

/// The lines of `s`, as `str::lines` gives them.
pub fn lines_of(s: &Vec<char>) -> (r: Vec<Vec<char>>)
    ensures
        char_views(r@) == text_lines(s@),
{
    let mut pieces: Vec<Vec<char>> = Vec::new();
    pieces.push(Vec::new());
    let mut i: usize = 0;
    proof {
        assert(s@.take(0) =~= Seq::<char>::empty());
        assert(char_views(pieces@) =~= split_newlines(s@.take(0)));
    }
    while i < s.len()
        invariant
            i <= s.len(),
            char_views(pieces@) == split_newlines(s@.take(i as int)),
            pieces.len() >= 1,
        decreases s.len() - i,
    {
        let c = s[i];
        let ghost t = s@.take(i as int);
        proof {
            assert(s@.take(i + 1).drop_last() =~= t);
            assert(s@.take(i + 1).last() == c);
        }
        if c == '\n' {
            pieces.push(Vec::new());
            assert(char_views(pieces@) =~= split_newlines(t).push(Seq::empty()));
        } else {
            let mut w = pieces.pop().unwrap();
            w.push(c);
            pieces.push(w);
            assert(char_views(pieces@) =~= split_newlines(t).update(
                split_newlines(t).len() - 1,
                split_newlines(t).last().push(c),
            ));
        }
        i += 1;
    }
    proof {
        assert(s@.take(s.len() as int) =~= s@);
    }
    let ghost p = split_newlines(s@);
    let mut out: Vec<Vec<char>> = Vec::new();
    let mut k: usize = 0;
    while k + 1 < pieces.len()
        invariant
            p == split_newlines(s@),
            char_views(pieces@) == p,
            pieces.len() >= 1,
            k + 1 <= pieces.len(),
            char_views(out@) == strip_all(p.take(k as int)),
        decreases pieces.len() - k,
    {
        let line = strip_carriage_return(&pieces[k]);
        out.push(line);
        proof {
            assert(pieces@[k as int]@ == p[k as int]);
            assert(p.take(k + 1).drop_last() =~= p.take(k as int));
            assert(char_views(out@) =~= strip_all(p.take(k + 1)));
        }
        k += 1;
    }
    proof {
        assert(p.take(k as int) =~= p.drop_last());
        assert(pieces@[k as int]@ == p.last());
    }
    let last = pieces.len() - 1;
    if pieces[last].len() > 0 {
        let mut w: Vec<char> = Vec::new();
        let mut j: usize = 0;
        while j < pieces[last].len()
            invariant
                last == pieces.len() - 1,
                j <= pieces[last as int].len(),
                w@ == pieces[last as int]@.take(j as int),
            decreases pieces[last as int].len() - j,
        {
            w.push(pieces[last][j]);
            assert(w@ =~= pieces[last as int]@.take(j + 1));
            j += 1;
        }
        assert(w@ =~= pieces[last as int]@);
        let ghost before = char_views(out@);
        out.push(w);
        assert(char_views(out@) =~= before.push(p.last()));
    }
    out
}

/// `s` holds no newline.
pub open spec fn no_newline(s: Seq<char>) -> bool {
    forall|i: int| 0 <= i < s.len() ==> #[trigger] s[i] != '\n'
}

/// The pieces between newlines hold no newline.
pub proof fn lemma_pieces_no_newline(s: Seq<char>)
    ensures
        forall|i: int| 0 <= i < split_newlines(s).len() ==> no_newline(#[trigger] split_newlines(s)[i]),
    decreases s.len(),
{
    lemma_split_newlines_len(s);
    if s.len() > 0 {
        lemma_pieces_no_newline(s.drop_last());
        lemma_split_newlines_len(s.drop_last());
        let p = split_newlines(s.drop_last());
        if s.last() != '\n' {
            assert forall|i: int| 0 <= i < split_newlines(s).len() implies no_newline(
                #[trigger] split_newlines(s)[i],
            ) by {
                if i == p.len() - 1 {
                    assert(no_newline(p[i]));
                    let q = p.last().push(s.last());
                    assert forall|k: int| 0 <= k < q.len() implies #[trigger] q[k] != '\n' by {
                        if k < p.last().len() {
                            assert(p.last()[k] != '\n');
                        }
                    }
                }
            }
        } else {
            assert forall|i: int| 0 <= i < split_newlines(s).len() implies no_newline(
                #[trigger] split_newlines(s)[i],
            ) by {
                if i < p.len() {
                    assert(split_newlines(s)[i] == p[i]);
                }
            }
        }
    }
}

/// Without a newline, a text has at most one line.
pub proof fn lemma_one_line(s: Seq<char>)
    requires
        no_newline(s),
    ensures
        text_lines(s).len() <= 1,
    decreases s.len(),
{
    lemma_split_newlines_single(s);
}

/// Without a newline, cutting at newlines gives one piece.
proof fn lemma_split_newlines_single(s: Seq<char>)
    requires
        no_newline(s),
    ensures
        split_newlines(s).len() == 1,
    decreases s.len(),
{
    if s.len() > 0 {
        assert(no_newline(s.drop_last())) by {
            assert forall|i: int| 0 <= i < s.drop_last().len() implies #[trigger] s.drop_last()[i] != '\n' by {
                assert(s.drop_last()[i] == s[i]);
            }
        }
        lemma_split_newlines_single(s.drop_last());
        assert(s[s.len() - 1] != '\n');
    }
}

/// The lines of a text hold no newline.
pub proof fn lemma_lines_no_newline(s: Seq<char>)
    ensures
        forall|i: int| 0 <= i < text_lines(s).len() ==> no_newline(#[trigger] text_lines(s)[i]),
{
    lemma_pieces_no_newline(s);
    lemma_split_newlines_len(s);
    let p = split_newlines(s);
    lemma_strip_all(p.drop_last());
    assert forall|i: int| 0 <= i < text_lines(s).len() implies no_newline(#[trigger] text_lines(s)[i]) by {
        if i < p.len() - 1 {
            assert(no_newline(p[i]));
            assert(p.drop_last()[i] == p[i]);
            let l = strip_cr(p[i]);
            assert forall|k: int| 0 <= k < l.len() implies #[trigger] l[k] != '\n' by {
                assert(l[k] == p[i][k]);
            }
        } else {
            assert(text_lines(s)[i] == p.last());
            assert(no_newline(p[p.len() - 1]));
        }
    }
}

/// Stripping each line strips each line in place.
pub proof fn lemma_strip_all(ls: Seq<Seq<char>>)
    ensures
        strip_all(ls).len() == ls.len(),
        forall|i: int| 0 <= i < ls.len() ==> #[trigger] strip_all(ls)[i] == strip_cr(ls[i]),
    decreases ls.len(),
{
    if ls.len() > 0 {
        lemma_strip_all(ls.drop_last());
    }
}

/// How many lines `s` has, as `str::lines` counts them.
pub fn count_lines(s: &str) -> (n: usize)
    ensures
        n == text_lines(s@).len(),
{
    let cs = chars_of(s);
    let ls = lines_of(&cs);
    ls.len()
}

} // verus!
