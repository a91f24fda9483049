//! Tests on text that the validation rules and the searches are built from.

use vstd::prelude::*;
use vstd::string::*;

verus! {

/// The characters that count as white space: those with the Unicode property
/// `White_Space`.
pub open spec fn is_whitespace(c: char) -> bool {
    let n = c as u32;
    ||| 0x09 <= n <= 0x0D
    ||| n == 0x20
    ||| n == 0x85
    ||| n == 0xA0
    ||| n == 0x1680
    ||| 0x2000 <= n <= 0x200A
    ||| n == 0x2028
    ||| n == 0x2029
    ||| n == 0x202F
    ||| n == 0x205F
    ||| n == 0x3000
}

pub fn char_is_whitespace(c: char) -> (r: bool)
    ensures
        r == is_whitespace(c),
{
    let n: u32 = c as u32;
    (0x09 <= n && n <= 0x0D) || n == 0x20 || n == 0x85 || n == 0xA0 || n == 0x1680 || (0x2000 <= n
        && n <= 0x200A) || n == 0x2028 || n == 0x2029 || n == 0x202F || n == 0x205F || n == 0x3000
}

/// A text is blank when it holds nothing but white space; the empty text is blank.
pub open spec fn is_blank(s: Seq<char>) -> bool {
    forall|i: int| 0 <= i < s.len() ==> is_whitespace(#[trigger] s[i])
}

/// Whether nothing would be left of `s` once the white space at both ends is cut away.
pub fn blank(s: &str) -> (r: bool)
    ensures
        r == is_blank(s@),
{
    for c in it: s.chars()
        invariant
            it.seq() == s@,
            forall|i: int| 0 <= i < it.index() ==> is_whitespace(#[trigger] s@[i]),
    {
        if !char_is_whitespace(c) {
            return false;
        }
    }
    true
}

/// The characters of `s`, one by one.
pub fn chars_of(s: &str) -> (v: Vec<char>)
    ensures
        v@ == s@,
{
    let mut v: Vec<char> = Vec::new();
    for c in it: s.chars()
        invariant
            it.seq() == s@,
            v@ == s@.take(it.index()),
    {
        v.push(c);
        assert(s@.take(it.index() + 1) =~= s@.take(it.index()).push(c));
    }
    assert(s@.take(s@.len() as int) =~= s@);
    v
}

/// Whether `s` begins with `prefix`.
pub fn starts_with(s: &str, prefix: &str) -> (r: bool)
    ensures
        r == prefix@.is_prefix_of(s@),
{
    let text = chars_of(s);
    let head = chars_of(prefix);
    if head.len() > text.len() {
        return false;
    }
    let mut i: usize = 0;
    while i < head.len()
        invariant
            i <= head.len() <= text.len(),
            text@ == s@,
            head@ == prefix@,
            forall|k: int| 0 <= k < i ==> head@[k] == text@[k],
        decreases head.len() - i,
    {
        if head[i] != text[i] {
            assert(text@.subrange(0, head@.len() as int)[i as int] == text@[i as int]);
            return false;
        }
        i = i + 1;
    }
    assert(head@ =~= text@.subrange(0, head@.len() as int));
    true
}

/// The code point that stands for `c` when letters are compared without
/// regard to case: for the letters `a` to `z` that of the capital letter,
/// for every other character its own.
pub open spec fn folded(c: char) -> u32 {
    let n = c as u32;
    if 0x61 <= n <= 0x7A {
        (n - 0x20) as u32
    } else {
        n
    }
}

pub fn fold_case(c: char) -> (n: u32)
    ensures
        n == folded(c),
{
    let n: u32 = c as u32;
    if 0x61 <= n && n <= 0x7A {
        n - 0x20
    } else {
        n
    }
}

/// Whether `text`, read from position `j`, matches `pattern`, read from
/// position `i`. In a pattern `%` stands for any run of characters, the
/// empty one too, and `_` for any one character; every other character stands
/// for itself, the letters `a` to `z` and `A` to `Z` without regard to case.
pub open spec fn like_from(pattern: Seq<char>, text: Seq<char>, i: int, j: int) -> bool
    decreases pattern.len() - i, text.len() - j,
{
    if i < 0 || j < 0 {
        false
    } else if i >= pattern.len() {
        j >= text.len()
    } else if pattern[i] == '%' {
        like_from(pattern, text, i + 1, j) || (j < text.len() && like_from(
            pattern,
            text,
            i,
            j + 1,
        ))
    } else {
        j < text.len() && (pattern[i] == '_' || folded(pattern[i]) == folded(text[j]))
            && like_from(pattern, text, i + 1, j + 1)
    }
}

/// Whether the whole of `text` matches the whole of `pattern`.
pub open spec fn like(pattern: Seq<char>, text: Seq<char>) -> bool {
    like_from(pattern, text, 0, 0)
}

/// The pattern that a search for `query` matches texts against: `query`
/// between two `%`, so that it may stand anywhere in the text.
pub open spec fn search_pattern(query: Seq<char>) -> Seq<char> {
    seq!['%'] + query + seq!['%']
}

/// Whether a search for `query` finds `text`.
pub open spec fn found_in(query: Seq<char>, text: Seq<char>) -> bool {
    like(search_pattern(query), text)
}

/// A query is plain when it holds neither `%` nor `_`.
pub open spec fn is_plain(query: Seq<char>) -> bool {
    forall|i: int| 0 <= i < query.len() ==> #[trigger] query[i] != '%' && query[i] != '_'
}

/// Whether `query` stands in `text` from place `k` on, letter for letter but
/// without regard to the case of the letters `a` to `z`.
pub open spec fn occurs_at(query: Seq<char>, text: Seq<char>, k: int) -> bool {
    &&& 0 <= k
    &&& k + query.len() <= text.len()
    &&& forall|x: int| 0 <= x < query.len() ==> folded(#[trigger] query[x]) == folded(text[k + x])
}

/// A pattern that ends in `%` matches, from that `%` on, whatever is left of the text.
pub proof fn lemma_like_rest(pattern: Seq<char>, text: Seq<char>, j: int)
    requires
        pattern.len() > 0,
        pattern.last() == '%',
        0 <= j <= text.len(),
    ensures
        like_from(pattern, text, pattern.len() - 1, j),
    decreases text.len() - j,
{
    let m = pattern.len() as int;
    assert(pattern[m - 1] == '%');
    if j < text.len() {
        lemma_like_rest(pattern, text, j + 1);
    } else {
        assert(like_from(pattern, text, m, j));
    }
}

/// With a plain query, the pattern of the search matches from the place
/// after its first `%` exactly where the query stands in the text.
pub proof fn lemma_like_plain(query: Seq<char>, text: Seq<char>, x: int, j: int)
    requires
        is_plain(query),
        0 <= x <= query.len(),
        0 <= j,
        j + x <= text.len(),
    ensures
        like_from(search_pattern(query), text, 1 + x, j + x) <==> (j + query.len() <= text.len()
            && forall|y: int|
            x <= y < query.len() ==> folded(#[trigger] query[y]) == folded(text[j + y])),
    decreases query.len() - x,
{
    let pattern = search_pattern(query);
    if x == query.len() {
        assert(pattern.last() == '%');
        lemma_like_rest(pattern, text, j + x);
    } else {
        assert(pattern[1 + x] == query[x]);
        if j + x < text.len() {
            lemma_like_plain(query, text, x + 1, j);
            if like_from(pattern, text, 1 + x, j + x) {
                assert forall|y: int| x <= y < query.len() implies folded(#[trigger] query[y])
                    == folded(text[j + y]) by {
                    if y > x {
                        assert(x + 1 <= y);
                    }
                }
            }
        }
    }
}

/// A search for a plain query finds a text exactly if the query stands
/// somewhere in it, without regard to the case of the letters `a` to `z`.
pub proof fn lemma_plain_search_finds_substrings(query: Seq<char>, text: Seq<char>)
    requires
        is_plain(query),
    ensures
        found_in(query, text) <==> exists|k: int| occurs_at(query, text, k),
{
    lemma_like_from_start(query, text, 0);
    if exists|k: int| occurs_at(query, text, k) {
        let k = choose|k: int| occurs_at(query, text, k);
        assert(0 <= k && occurs_at(query, text, k));
    }
}

/// With a plain query, the pattern of the search matches the text from place
/// `j` on exactly if the query stands in the text at `j` or behind it.
pub proof fn lemma_like_from_start(query: Seq<char>, text: Seq<char>, j: int)
    requires
        is_plain(query),
        0 <= j <= text.len(),
    ensures
        like_from(search_pattern(query), text, 0, j) <==> exists|k: int|
            j <= k && occurs_at(query, text, k),
    decreases text.len() - j,
{
    let pattern = search_pattern(query);
    assert(pattern[0] == '%');
    lemma_like_plain(query, text, 0, j);
    assert(like_from(pattern, text, 1, j) <==> occurs_at(query, text, j));
    if j < text.len() {
        lemma_like_from_start(query, text, j + 1);
    }
    if like_from(pattern, text, 0, j) {
        if like_from(pattern, text, 1, j) {
            assert(j <= j && occurs_at(query, text, j));
        } else {
            let k = choose|k: int| j + 1 <= k && occurs_at(query, text, k);
            assert(j <= k && occurs_at(query, text, k));
        }
    }
    if exists|k: int| j <= k && occurs_at(query, text, k) {
        let k = choose|k: int| j <= k && occurs_at(query, text, k);
        if k > j {
            assert(j + 1 <= k && occurs_at(query, text, k));
        }
    }
}

/// The pattern of a search for `query`, as characters.
pub fn make_search_pattern(query: &str) -> (pattern: Vec<char>)
    ensures
        pattern@ == search_pattern(query@),
{
    let mut pattern: Vec<char> = Vec::new();
    pattern.push('%');
    for c in it: query.chars()
        invariant
            it.seq() == query@,
            pattern@ == seq!['%'] + query@.take(it.index()),
    {
        pattern.push(c);
        assert(query@.take(it.index() + 1) =~= query@.take(it.index()).push(c));
        assert(pattern@ =~= seq!['%'] + query@.take(it.index() + 1));
    }
    assert(query@.take(query@.len() as int) =~= query@);
    pattern.push('%');
    assert(pattern@ =~= search_pattern(query@));
    pattern
}

/// Matches `text` against `pattern`, filling for each position of the pattern,
/// from its end to its start, the answers for every position of the text.
pub fn like_match(pattern: &Vec<char>, text: &Vec<char>) -> (r: bool)
    ensures
        r == like(pattern@, text@),
{
    let m = pattern.len();
    let n = text.len();
    // `row[j]` and `row_end` answer for the pattern from `i`, the text from `j` and from its end.
    let mut row: Vec<bool> = Vec::new();
    let mut row_end: bool = true;
    let mut k: usize = 0;
    while k < n
        invariant
            k <= n,
            n == text@.len(),
            m == pattern@.len(),
            row@.len() == k,
            forall|j: int| 0 <= j < k ==> row@[j] == like_from(pattern@, text@, m as int, j),
        decreases n - k,
    {
        row.push(false);
        k = k + 1;
    }
    let mut i: usize = m;
    while i > 0
        invariant
            i <= m,
            n == text@.len(),
            m == pattern@.len(),
            row@.len() == n,
            row_end == like_from(pattern@, text@, i as int, n as int),
            forall|j: int| 0 <= j < n ==> row@[j] == like_from(pattern@, text@, i as int, j),
        decreases i,
    {
        i = i - 1;
        let p = pattern[i];
        let any_run = p == '%';
        let any_one = p == '_';
        let next_end = any_run && row_end;
        let mut next: Vec<bool> = Vec::new();
        let mut k: usize = 0;
        while k < n
            invariant
                k <= n,
                next@.len() == k,
            decreases n - k,
        {
            next.push(false);
            k = k + 1;
        }
        let mut j: usize = n;
        let mut after: bool = next_end;
        while j > 0
            invariant
                j <= n,
                i < m,
                n == text@.len(),
                m == pattern@.len(),
                p == pattern@[i as int],
                any_run == (p == '%'),
                any_one == (p == '_'),
                row@.len() == n,
                next@.len() == n,
                row_end == like_from(pattern@, text@, i + 1, n as int),
                forall|t: int| 0 <= t < n ==> row@[t] == like_from(pattern@, text@, i + 1, t),
                after == like_from(pattern@, text@, i as int, j as int),
                forall|t: int| j <= t < n ==> next@[t] == like_from(pattern@, text@, i as int, t),
            decreases j,
        {
            j = j - 1;
            let below = if j + 1 < n {
                row[j + 1]
            } else {
                row_end
            };
            let here = if any_run {
                row[j] || after
            } else {
                (any_one || fold_case(p) == fold_case(text[j])) && below
            };
            next.set(j, here);
            after = here;
        }
        row = next;
        row_end = next_end;
    }
    if n > 0 {
        row[0]
    } else {
        row_end
    }
}

/// Whether `text` matches `pattern`.
pub fn search_matches(pattern: &Vec<char>, text: &str) -> (r: bool)
    ensures
        r == like(pattern@, text@),
{
    let chars = chars_of(text);
    like_match(pattern, &chars)
}

/// The character that writes the digit `d`.
pub open spec fn digit(d: nat) -> char {
    if d == 0 {
        '0'
    } else if d == 1 {
        '1'
    } else if d == 2 {
        '2'
    } else if d == 3 {
        '3'
    } else if d == 4 {
        '4'
    } else if d == 5 {
        '5'
    } else if d == 6 {
        '6'
    } else if d == 7 {
        '7'
    } else if d == 8 {
        '8'
    } else {
        '9'
    }
}

/// The decimal numeral of `n`, without leading zeros.
pub open spec fn decimal(n: nat) -> Seq<char>
    decreases n,
{
    if n < 10 {
        seq![digit(n)]
    } else {
        decimal(n / 10).push(digit(n % 10))
    }
}

/// The decimal numeral of an integer: that of its magnitude, after a `-` if it is negative.
pub open spec fn signed_decimal(n: int) -> Seq<char> {
    if n < 0 {
        seq!['-'] + decimal((-n) as nat)
    } else {
        decimal(n as nat)
    }
}

fn digit_text(d: u64) -> (s: &'static str)
    requires
        d < 10,
    ensures
        s@ == seq![digit(d as nat)],
{
    proof {
        reveal_strlit("0");
        reveal_strlit("1");
        reveal_strlit("2");
        reveal_strlit("3");
        reveal_strlit("4");
        reveal_strlit("5");
        reveal_strlit("6");
        reveal_strlit("7");
        reveal_strlit("8");
        reveal_strlit("9");
    }
    let s = if d == 0 {
        "0"
    } else if d == 1 {
        "1"
    } else if d == 2 {
        "2"
    } else if d == 3 {
        "3"
    } else if d == 4 {
        "4"
    } else if d == 5 {
        "5"
    } else if d == 6 {
        "6"
    } else if d == 7 {
        "7"
    } else if d == 8 {
        "8"
    } else {
        "9"
    };
    assert(s@ =~= seq![digit(d as nat)]);
    s
}

/// Writes `n` in decimal.
pub fn decimal_text(n: u64) -> (s: String)
    ensures
        s@ == decimal(n as nat),
    decreases n,
{
    if n < 10 {
        String::from_str(digit_text(n))
    } else {
        let s = decimal_text(n / 10).concat(digit_text(n % 10));
        assert(s@ =~= decimal(n as nat));
        s
    }
}

/// Writes `n` in decimal, with a `-` before a negative number.
pub fn signed_decimal_text(n: i64) -> (s: String)
    ensures
        s@ == signed_decimal(n as int),
{
    if n < 0 {
        let magnitude: u64 = ((-(n + 1)) as u64) + 1;
        proof {
            reveal_strlit("-");
        }
        let s = String::from_str("-").concat(decimal_text(magnitude).as_str());
        assert(s@ =~= signed_decimal(n as int));
        s
    } else {
        decimal_text(n as u64)
    }
}

} // verus!
