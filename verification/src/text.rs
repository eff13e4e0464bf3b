//! Searching, splitting and trimming text, character by character.
//!
//! Positions are counted in characters, and every contract speaks of the
//! sequence of characters that a string holds.
use vstd::prelude::*;
use vstd::utf8::*;

verus! {

/// `String::push` appends one character to the end of the string.
pub assume_specification[ std::string::String::push ](s: &mut std::string::String, c: char)
    ensures
        final(s)@ == old(s)@.push(c),
;

/// What `String::from_utf8_lossy` makes of bytes.
pub uninterp spec fn utf8_lossy(bytes: Seq<u8>) -> Seq<char>;

/// `String::from_utf8` gives the text that the bytes encode, and fails exactly
/// where they are not valid UTF-8.
#[verifier::external_body]
pub(crate) fn utf8(bytes: &Vec<u8>) -> (r: Option<String>)
    ensures
        match r {
            Some(s) => valid_utf8(bytes@) && s@ == decode_utf8(bytes@),
            None => !valid_utf8(bytes@),
        },
{
    String::from_utf8(bytes.clone()).ok()
}

/// `String::from_utf8_lossy` gives the text that valid UTF-8 encodes. Which
/// replacement characters stand for invalid bytes is left to its name.
#[verifier::external_body]
pub(crate) fn lossy(bytes: &Vec<u8>) -> (r: String)
    ensures
        r@ == utf8_lossy(bytes@),
        valid_utf8(bytes@) ==> r@ == decode_utf8(bytes@),
{
    String::from_utf8_lossy(bytes).into_owned()
}

// ── specifications ────────────────────────────────────────────────────────────

/// `pat` stands in `s` at position `i`.
pub open spec fn occurs_at(s: Seq<char>, pat: Seq<char>, i: int) -> bool {
    0 <= i && i + pat.len() <= s.len() && s.subrange(i, i + pat.len()) == pat
}

/// The first position from `i` on at which `pat` stands in `s`.
pub open spec fn find_from(s: Seq<char>, pat: Seq<char>, i: int) -> Option<int>
    decreases s.len() - i,
{
    if i < 0 || i + pat.len() > s.len() {
        None
    } else if occurs_at(s, pat, i) {
        Some(i)
    } else if i < s.len() {
        find_from(s, pat, i + 1)
    } else {
        None
    }
}

/// The first position at which `pat` stands in `s`.
pub open spec fn find_spec(s: Seq<char>, pat: Seq<char>) -> Option<int> {
    find_from(s, pat, 0)
}

/// `pat` stands somewhere in `s`.
pub open spec fn contains_spec(s: Seq<char>, pat: Seq<char>) -> bool {
    exists|i: int| occurs_at(s, pat, i)
}

/// The first position from `i` on that holds `c`.
pub open spec fn index_from(s: Seq<char>, c: char, i: int) -> Option<int>
    decreases s.len() - i,
{
    if i < 0 || i >= s.len() {
        None
    } else if s[i] == c {
        Some(i)
    } else {
        index_from(s, c, i + 1)
    }
}

/// The first position that holds `c`.
pub open spec fn index_spec(s: Seq<char>, c: char) -> Option<int> {
    index_from(s, c, 0)
}

/// The last position that holds `c`.
pub open spec fn rindex_spec(s: Seq<char>, c: char) -> Option<int>
    decreases s.len(),
{
    if s.len() == 0 {
        None
    } else if s.last() == c {
        Some(s.len() - 1)
    } else {
        rindex_spec(s.drop_last(), c)
    }
}

/// The pieces of `s` between the occurrences of `c`.
pub open spec fn split_spec(s: Seq<char>, c: char) -> Seq<Seq<char>>
    decreases s.len(),
{
    match index_spec(s, c) {
        None => seq![s],
        Some(i) => if 0 <= i < s.len() {
            seq![s.take(i)] + split_spec(s.skip(i + 1), c)
        } else {
            seq![s]
        },
    }
}

/// A line without the carriage return of a CRLF ending.
pub open spec fn chomp_spec(s: Seq<char>) -> Seq<char> {
    if s.len() > 0 && s.last() == '\r' {
        s.drop_last()
    } else {
        s
    }
}

/// The lines of `s`: each ends in LF or CRLF, which the last one may lack.
pub open spec fn lines_spec(s: Seq<char>) -> Seq<Seq<char>>
    decreases s.len(),
{
    if s.len() == 0 {
        seq![]
    } else {
        match index_spec(s, '\n') {
            None => seq![s],
            Some(i) => if 0 <= i < s.len() {
                seq![chomp_spec(s.take(i))] + lines_spec(s.skip(i + 1))
            } else {
                seq![s]
            },
        }
    }
}

/// Unicode white space.
pub open spec fn is_space(c: char) -> bool {
    ||| '\u{9}' <= c <= '\u{d}'
    ||| c == ' '
    ||| c == '\u{85}'
    ||| c == '\u{a0}'
    ||| c == '\u{1680}'
    ||| '\u{2000}' <= c <= '\u{200a}'
    ||| c == '\u{2028}'
    ||| c == '\u{2029}'
    ||| c == '\u{202f}'
    ||| c == '\u{205f}'
    ||| c == '\u{3000}'
}

/// `s` without the white space that it starts with.
pub open spec fn trim_start_spec(s: Seq<char>) -> Seq<char>
    decreases s.len(),
{
    if s.len() > 0 && is_space(s[0]) {
        trim_start_spec(s.skip(1))
    } else {
        s
    }
}

/// `s` without the white space that it ends with.
pub open spec fn trim_end_spec(s: Seq<char>) -> Seq<char>
    decreases s.len(),
{
    if s.len() > 0 && is_space(s.last()) {
        trim_end_spec(s.drop_last())
    } else {
        s
    }
}

/// `s` without white space at either end.
pub open spec fn trim_spec(s: Seq<char>) -> Seq<char> {
    trim_end_spec(trim_start_spec(s))
}

/// `s` without the run of `c` that it starts with.
pub open spec fn strip_start_spec(s: Seq<char>, c: char) -> Seq<char>
    decreases s.len(),
{
    if s.len() > 0 && s[0] == c {
        strip_start_spec(s.skip(1), c)
    } else {
        s
    }
}

/// `s` without the run of `c` that it ends with.
pub open spec fn strip_end_spec(s: Seq<char>, c: char) -> Seq<char>
    decreases s.len(),
{
    if s.len() > 0 && s.last() == c {
        strip_end_spec(s.drop_last(), c)
    } else {
        s
    }
}

/// The number of characters before the first white space, from `i` on.
pub open spec fn word_end(s: Seq<char>, i: int) -> int
    decreases s.len() - i,
{
    if 0 <= i < s.len() && !is_space(s[i]) {
        word_end(s, i + 1)
    } else {
        i
    }
}

/// The runs of characters of `s` that are not white space, from `i` on.
pub open spec fn words_from(s: Seq<char>, i: int) -> Seq<Seq<char>>
    decreases s.len() - i,
{
    if i < 0 || i >= s.len() {
        seq![]
    } else if is_space(s[i]) {
        words_from(s, i + 1)
    } else {
        let e = word_end(s, i);
        if i < e <= s.len() {
            seq![s.subrange(i, e)] + words_from(s, e)
        } else {
            seq![]
        }
    }
}

/// The words of `s`, which white space separates.
pub open spec fn words_spec(s: Seq<char>) -> Seq<Seq<char>> {
    words_from(s, 0)
}

/// `s` with each occurrence of `pat`, found from left to right, replaced.
pub open spec fn replace_spec(s: Seq<char>, pat: Seq<char>, to: Seq<char>) -> Seq<char>
    decreases s.len(),
{
    match find_spec(s, pat) {
        None => s,
        Some(i) => if 0 <= i && 0 < pat.len() && i + pat.len() <= s.len() {
            s.take(i) + to + replace_spec(s.skip(i + pat.len()), pat, to)
        } else {
            s
        },
    }
}

/// The parts one after the other, with `sep` between them.
pub open spec fn join_spec(parts: Seq<Seq<char>>, sep: Seq<char>) -> Seq<char>
    decreases parts.len(),
{
    if parts.len() == 0 {
        seq![]
    } else if parts.len() == 1 {
        parts[0]
    } else {
        join_spec(parts.drop_last(), sep) + sep + parts.last()
    }
}

/// The texts without white space at either end, but for those that nothing is
/// left of.
pub open spec fn trimmed_spec(parts: Seq<Seq<char>>) -> Seq<Seq<char>>
    decreases parts.len(),
{
    if parts.len() == 0 {
        seq![]
    } else if trim_spec(parts.last()).len() == 0 {
        trimmed_spec(parts.drop_last())
    } else {
        trimmed_spec(parts.drop_last()).push(trim_spec(parts.last()))
    }
}

/// The lines of `s` that hold more than white space, without any at either end.
pub open spec fn full_lines_spec(s: Seq<char>) -> Seq<Seq<char>> {
    trimmed_spec(lines_spec(s))
}

/// The first item, if there is one.
pub open spec fn first_spec<A>(items: Seq<A>) -> Option<A> {
    if items.len() > 0 {
        Some(items[0])
    } else {
        None
    }
}

/// An ASCII letter or digit.
pub open spec fn is_alnum(c: char) -> bool {
    'a' <= c <= 'z' || 'A' <= c <= 'Z' || '0' <= c <= '9'
}

/// An ASCII digit.
pub open spec fn is_digit(c: char) -> bool {
    '0' <= c <= '9'
}

/// The ASCII lower-case form of a character.
pub open spec fn lower(c: char) -> char {
    if 'A' <= c <= 'Z' {
        ((c as u32) + 32) as char
    } else {
        c
    }
}

/// The ASCII upper-case form of a character.
pub open spec fn upper(c: char) -> char {
    if 'a' <= c <= 'z' {
        ((c as u32) - 32) as char
    } else {
        c
    }
}

/// `a` stands strictly before `b` in the order of code points.
pub open spec fn text_lt(a: Seq<char>, b: Seq<char>) -> bool
    decreases a.len(),
{
    if b.len() == 0 {
        false
    } else if a.len() == 0 {
        true
    } else if a[0] != b[0] {
        a[0] < b[0]
    } else {
        text_lt(a.skip(1), b.skip(1))
    }
}

// ── facts about the specifications ────────────────────────────────────────────

/// A position that `find_from` gives holds an occurrence, and none stands
/// between `i` and it; where it gives none, there is none from `i` on.
pub proof fn lemma_find(s: Seq<char>, pat: Seq<char>, i: int)
    requires
        0 <= i,
    ensures
        match find_from(s, pat, i) {
            Some(k) => {
                &&& i <= k
                &&& occurs_at(s, pat, k)
                &&& forall|j: int| i <= j < k ==> !#[trigger] occurs_at(s, pat, j)
            },
            None => forall|j: int| i <= j ==> !#[trigger] occurs_at(s, pat, j),
        },
    decreases s.len() - i,
{
    if i + pat.len() > s.len() {
    } else if occurs_at(s, pat, i) {
    } else if i < s.len() {
        lemma_find(s, pat, i + 1);
    }
}

/// `find_spec` gives a position exactly where the pattern is contained.
pub proof fn lemma_find_contains(s: Seq<char>, pat: Seq<char>)
    ensures
        find_spec(s, pat) is Some <==> contains_spec(s, pat),
{
    lemma_find(s, pat, 0);
    if let Some(k) = find_spec(s, pat) {
        assert(occurs_at(s, pat, k));
    }
}

/// A position that `index_from` gives holds `c`, and none before it does.
pub proof fn lemma_index(s: Seq<char>, c: char, i: int)
    requires
        0 <= i,
    ensures
        match index_from(s, c, i) {
            Some(k) => {
                &&& i <= k < s.len()
                &&& s[k] == c
                &&& forall|j: int| i <= j < k ==> s[j] != c
            },
            None => forall|j: int| i <= j < s.len() ==> s[j] != c,
        },
    decreases s.len() - i,
{
    if i < s.len() && s[i] != c {
        lemma_index(s, c, i + 1);
    }
}

/// A position that `rindex_spec` gives holds `c`, and none after it does.
pub proof fn lemma_rindex(s: Seq<char>, c: char)
    ensures
        match rindex_spec(s, c) {
            Some(k) => {
                &&& 0 <= k < s.len()
                &&& s[k] == c
                &&& forall|j: int| k < j < s.len() ==> s[j] != c
            },
            None => forall|j: int| 0 <= j < s.len() ==> s[j] != c,
        },
    decreases s.len(),
{
    if s.len() > 0 && s.last() != c {
        lemma_rindex(s.drop_last(), c);
        let r = rindex_spec(s.drop_last(), c);
        assert forall|j: int| 0 <= j < s.len() - 1 implies s[j] == s.drop_last()[j] by {}
    }
}

/// A word that starts at `i` ends at `word_end`.
pub proof fn lemma_word_end(s: Seq<char>, i: int)
    requires
        0 <= i <= s.len(),
    ensures
        i <= word_end(s, i) <= s.len(),
        forall|j: int| i <= j < word_end(s, i) ==> !is_space(s[j]),
        word_end(s, i) < s.len() ==> is_space(s[word_end(s, i)]),
    decreases s.len() - i,
{
    if i < s.len() && !is_space(s[i]) {
        lemma_word_end(s, i + 1);
    }
}

/// The order of code points is total.
pub proof fn lemma_text_total(a: Seq<char>, b: Seq<char>)
    ensures
        a == b || text_lt(a, b) || text_lt(b, a),
    decreases a.len(),
{
    if a.len() > 0 && b.len() > 0 && a[0] == b[0] {
        lemma_text_total(a.skip(1), b.skip(1));
        if a.skip(1) == b.skip(1) {
            assert(a =~= seq![a[0]] + a.skip(1));
            assert(b =~= seq![b[0]] + b.skip(1));
        }
    } else if a.len() == 0 && b.len() == 0 {
        assert(a =~= b);
    }
}

/// The order of code points is strict.
pub proof fn lemma_text_asym(a: Seq<char>, b: Seq<char>)
    ensures
        !text_lt(a, a),
        text_lt(a, b) ==> !text_lt(b, a) && a != b,
    decreases a.len(),
{
    if a.len() > 0 {
        lemma_text_asym(a.skip(1), a.skip(1));
        if b.len() > 0 && a[0] == b[0] {
            lemma_text_asym(a.skip(1), b.skip(1));
        }
    }
}

/// The order of code points is transitive.
pub proof fn lemma_text_trans(a: Seq<char>, b: Seq<char>, c: Seq<char>)
    requires
        text_lt(a, b),
        text_lt(b, c),
    ensures
        text_lt(a, c),
    decreases a.len(),
{
    if a.len() > 0 && a[0] == b[0] && b[0] == c[0] {
        lemma_text_trans(a.skip(1), b.skip(1), c.skip(1));
    }
}

// ── operations ────────────────────────────────────────────────────────────────

/// The characters of `s`.
pub fn chars(s: &str) -> (r: Vec<char>)
    ensures
        r@ == s@,
{
    let mut v: Vec<char> = Vec::new();
    for c in it: s.chars()
        invariant
            v@ == it.seq().take(it.index()),
            it.seq() == s@,
    {
        v.push(c);
    }
    v
}

/// Whether two strings hold the same characters.
pub fn same(a: &str, b: &str) -> (r: bool)
    ensures
        r == (a@ == b@),
{
    let x = chars(a);
    let y = chars(b);
    if x.len() != y.len() {
        return false;
    }
    for i in 0..x.len()
        invariant
            x@.len() == y@.len(),
            x@ == a@,
            y@ == b@,
            forall|j: int| 0 <= j < i ==> x@[j] == y@[j],
    {
        if x[i] != y[i] {
            assert(a@[i as int] != b@[i as int]);
            return false;
        }
    }
    assert(a@ =~= b@);
    true
}

/// `s` from the character at `n` on.
pub fn skip<'a>(s: &'a str, n: usize) -> (r: &'a str)
    requires
        n <= s@.len(),
    ensures
        r@ == s@.skip(n as int),
{
    let len: usize = s.unicode_len();
    s.substring_char(n, len)
}

/// The first `n` characters of `s`.
pub fn take<'a>(s: &'a str, n: usize) -> (r: &'a str)
    requires
        n <= s@.len(),
    ensures
        r@ == s@.take(n as int),
{
    s.substring_char(0, n)
}

/// Whether `pat` stands in the characters `s` at position `i`.
fn stands_at(s: &Vec<char>, pat: &Vec<char>, i: usize) -> (r: bool)
    requires
        i + pat@.len() <= s@.len(),
    ensures
        r == occurs_at(s@, pat@, i as int),
{
    let len: usize = s.len();
    for k in 0..pat.len()
        invariant
            i + pat@.len() <= s@.len(),
            len == s@.len(),
            forall|j: int| 0 <= j < k ==> s@[i + j] == pat@[j],
    {
        if s[i + k] != pat[k] {
            assert(s@.subrange(i as int, i + pat@.len())[k as int] != pat@[k as int]);
            return false;
        }
    }
    assert(s@.subrange(i as int, i + pat@.len()) =~= pat@);
    true
}

/// The first position at which `pat` stands in `s`.
pub fn find(s: &str, pat: &str) -> (r: Option<usize>)
    ensures
        match r {
            Some(i) => find_spec(s@, pat@) == Some(i as int),
            None => find_spec(s@, pat@) is None,
        },
        r is Some ==> r->0 + pat@.len() <= s@.len() <= usize::MAX,
{
    let sv = chars(s);
    let pv = chars(pat);
    if pv.len() > sv.len() {
        return None;
    }
    let last: usize = sv.len() - pv.len();
    let mut i: usize = 0;
    while i <= last
        invariant
            sv@ == s@,
            pv@ == pat@,
            last + pv@.len() == sv@.len() <= usize::MAX,
            i <= last + 1,
            find_spec(s@, pat@) == find_from(s@, pat@, i as int),
        decreases last + 1 - i,
    {
        if stands_at(&sv, &pv, i) {
            return Some(i);
        }
        if i == last {
            assert(find_from(s@, pat@, i + 1) is None);
            return None;
        }
        i += 1;
    }
    None
}

/// Whether `pat` stands somewhere in `s`.
pub fn contains(s: &str, pat: &str) -> (r: bool)
    ensures
        r == contains_spec(s@, pat@),
{
    proof {
        lemma_find_contains(s@, pat@);
    }
    find(s, pat).is_some()
}

/// The first position of `c` in `s`.
pub fn index_of(s: &str, c: char) -> (r: Option<usize>)
    ensures
        match r {
            Some(i) => index_spec(s@, c) == Some(i as int),
            None => index_spec(s@, c) is None,
        },
        r is Some ==> r->0 < s@.len() <= usize::MAX,
{
    let v = chars(s);
    let mut i: usize = 0;
    while i < v.len()
        invariant
            v@ == s@,
            i <= v@.len(),
            index_spec(s@, c) == index_from(s@, c, i as int),
        decreases v@.len() - i,
    {
        if v[i] == c {
            return Some(i);
        }
        i += 1;
    }
    None
}

/// The last position of `c` in `s`.
pub fn rindex_of(s: &str, c: char) -> (r: Option<usize>)
    ensures
        match r {
            Some(i) => rindex_spec(s@, c) == Some(i as int),
            None => rindex_spec(s@, c) is None,
        },
        r is Some ==> r->0 < s@.len() <= usize::MAX,
{
    let v = chars(s);
    let mut n: usize = v.len();
    assert(s@.take(n as int) =~= s@);
    while n > 0
        invariant
            v@ == s@,
            n <= v@.len(),
            rindex_spec(s@, c) == rindex_spec(s@.take(n as int), c),
        decreases n,
    {
        if v[n - 1] == c {
            return Some(n - 1);
        }
        assert(s@.take(n as int).drop_last() =~= s@.take(n - 1));
        n -= 1;
    }
    None
}

/// The pieces of `s` between the occurrences of `c`.
pub fn split<'a>(s: &'a str, c: char) -> (r: Vec<&'a str>)
    ensures
        r.deep_view() == split_spec(s@, c),
        r@.len() > 0,
{
    let mut out: Vec<&'a str> = Vec::new();
    let mut rest: &'a str = s;
    loop
        invariant_except_break
            out.deep_view() + split_spec(rest@, c) == split_spec(s@, c),
        ensures
            out.deep_view() == split_spec(s@, c),
            out@.len() > 0,
        decreases rest@.len(),
    {
        match index_of(rest, c) {
            None => {
                let ghost before = out.deep_view();
                out.push(rest);
                assert(out.deep_view() =~= before + seq![rest@]);
                break;
            },
            Some(i) => {
                let ghost before = out.deep_view();
                let piece = take(rest, i);
                out.push(piece);
                assert(out.deep_view() =~= before + seq![piece@]);
                let next = skip(rest, i + 1);
                assert(before + split_spec(rest@, c) =~= out.deep_view() + split_spec(next@, c));
                rest = next;
            },
        }
    }
    out
}

/// The lines of `s`.
pub fn lines<'a>(s: &'a str) -> (r: Vec<&'a str>)
    ensures
        r.deep_view() == lines_spec(s@),
{
    let mut out: Vec<&'a str> = Vec::new();
    let mut rest: &'a str = s;
    assert(out.deep_view() + lines_spec(rest@) =~= lines_spec(s@));
    while !rest.is_empty()
        invariant_except_break
            out.deep_view() + lines_spec(rest@) == lines_spec(s@),
        ensures
            out.deep_view() == lines_spec(s@),
        decreases rest@.len(),
    {
        let ghost before = out.deep_view();
        match index_of(rest, '\n') {
            None => {
                out.push(rest);
                assert(out.deep_view() =~= before + seq![rest@]);
                break;
            },
            Some(i) => {
                let line = take(rest, i);
                let line = if i > 0 && line.get_char(i - 1) == '\r' {
                    take(line, i - 1)
                } else {
                    line
                };
                assert(line@ =~= chomp_spec(rest@.take(i as int)));
                out.push(line);
                assert(out.deep_view() =~= before + seq![line@]);
                let next = skip(rest, i + 1);
                assert(before + lines_spec(rest@) =~= out.deep_view() + lines_spec(next@));
                rest = next;
            },
        }
    }
    out
}

/// Whether `c` is Unicode white space.
pub fn is_white(c: char) -> (r: bool)
    ensures
        r == is_space(c),
{
    ('\u{9}' <= c && c <= '\u{d}') || c == ' ' || c == '\u{85}' || c == '\u{a0}' || c == '\u{1680}'
        || ('\u{2000}' <= c && c <= '\u{200a}') || c == '\u{2028}' || c == '\u{2029}' || c
        == '\u{202f}' || c == '\u{205f}' || c == '\u{3000}'
}

/// `s` without white space at either end.
pub fn trim<'a>(s: &'a str) -> (r: &'a str)
    ensures
        r@ == trim_spec(s@),
{
    let v = chars(s);
    let mut i: usize = 0;
    assert(s@.skip(0) =~= s@);
    while i < v.len() && is_white(v[i])
        invariant
            v@ == s@,
            i <= v@.len(),
            trim_start_spec(s@) == trim_start_spec(s@.skip(i as int)),
        decreases v@.len() - i,
    {
        assert(s@.skip(i as int).skip(1) =~= s@.skip(i + 1));
        i += 1;
    }
    assert(trim_start_spec(s@) == s@.skip(i as int));
    let mut n: usize = v.len();
    assert(s@.subrange(i as int, n as int) =~= s@.skip(i as int));
    while n > i && is_white(v[n - 1])
        invariant
            v@ == s@,
            i <= n <= v@.len(),
            trim_spec(s@) == trim_end_spec(s@.subrange(i as int, n as int)),
        decreases n,
    {
        assert(s@.subrange(i as int, n as int).drop_last() =~= s@.subrange(i as int, n - 1));
        n -= 1;
    }
    s.substring_char(i, n)
}

/// `s` without the run of `c` that it starts with.
pub fn strip_start<'a>(s: &'a str, c: char) -> (r: &'a str)
    ensures
        r@ == strip_start_spec(s@, c),
{
    let v = chars(s);
    let mut i: usize = 0;
    assert(s@.skip(0) =~= s@);
    while i < v.len() && v[i] == c
        invariant
            v@ == s@,
            i <= v@.len(),
            strip_start_spec(s@, c) == strip_start_spec(s@.skip(i as int), c),
        decreases v@.len() - i,
    {
        assert(s@.skip(i as int).skip(1) =~= s@.skip(i + 1));
        i += 1;
    }
    skip(s, i)
}

/// `s` without the run of `c` that it ends with.
pub fn strip_end<'a>(s: &'a str, c: char) -> (r: &'a str)
    ensures
        r@ == strip_end_spec(s@, c),
{
    let v = chars(s);
    let mut n: usize = v.len();
    assert(s@.take(n as int) =~= s@);
    while n > 0 && v[n - 1] == c
        invariant
            v@ == s@,
            n <= v@.len(),
            strip_end_spec(s@, c) == strip_end_spec(s@.take(n as int), c),
        decreases n,
    {
        assert(s@.take(n as int).drop_last() =~= s@.take(n - 1));
        n -= 1;
    }
    take(s, n)
}

/// The words of `s`, which white space separates.
pub fn words<'a>(s: &'a str) -> (r: Vec<&'a str>)
    ensures
        r.deep_view() == words_spec(s@),
{
    let v = chars(s);
    let mut out: Vec<&'a str> = Vec::new();
    let mut i: usize = 0;
    assert(out.deep_view() + words_from(s@, 0) =~= words_spec(s@));
    while i < v.len()
        invariant
            v@ == s@,
            i <= v@.len(),
            out.deep_view() + words_from(s@, i as int) == words_spec(s@),
        decreases v@.len() - i,
    {
        if is_white(v[i]) {
            i += 1;
            continue;
        }
        let ghost before = out.deep_view();
        let start: usize = i;
        while i < v.len() && !is_white(v[i])
            invariant
                v@ == s@,
                start <= i <= v@.len(),
                word_end(s@, start as int) == word_end(s@, i as int),
            decreases v@.len() - i,
        {
            i += 1;
        }
        let piece = s.substring_char(start, i);
        out.push(piece);
        assert(out.deep_view() =~= before + seq![piece@]);
        assert(before + words_from(s@, start as int) =~= out.deep_view() + words_from(
            s@,
            i as int,
        ));
    }
    assert(out.deep_view() + words_from(s@, i as int) =~= out.deep_view());
    out
}

/// `s` with each occurrence of `pat`, found from left to right, replaced by `to`.
pub fn replace(s: &str, pat: &str, to: &str) -> (r: String)
    requires
        pat@.len() > 0,
    ensures
        r@ == replace_spec(s@, pat@, to@),
{
    let mut out = String::new();
    let mut rest = s;
    let n: usize = pat.unicode_len();
    assert(out@ + replace_spec(rest@, pat@, to@) =~= replace_spec(s@, pat@, to@));
    loop
        invariant_except_break
            out@ + replace_spec(rest@, pat@, to@) == replace_spec(s@, pat@, to@),
        invariant
            n == pat@.len(),
            n > 0,
        ensures
            out@ == replace_spec(s@, pat@, to@),
        decreases rest@.len(),
    {
        match find(rest, pat) {
            None => {
                out.append(rest);
                break;
            },
            Some(i) => {
                proof {
                    lemma_find(rest@, pat@, 0);
                }
                let ghost before = out@;
                out.append(take(rest, i));
                out.append(to);
                let next = skip(rest, i + n);
                assert(before + replace_spec(rest@, pat@, to@) =~= out@ + replace_spec(
                    next@,
                    pat@,
                    to@,
                ));
                rest = next;
            },
        }
    }
    out
}

/// The parts one after the other, with `sep` between them.
pub fn join(parts: &Vec<String>, sep: &str) -> (r: String)
    ensures
        r@ == join_spec(parts.deep_view(), sep@),
{
    let mut out = String::new();
    let ghost all = parts.deep_view();
    for i in 0..parts.len()
        invariant
            all == parts.deep_view(),
            out@ == join_spec(all.take(i as int), sep@),
    {
        assert(all.take(i + 1).drop_last() =~= all.take(i as int));
        assert(all.take(i + 1).last() == parts@[i as int]@);
        if i > 0 {
            out.append(sep);
        }
        let ghost before = out@;
        out.append(parts[i].as_str());
        assert(before + parts@[i as int]@ =~= out@);
    }
    assert(all.take(all.len() as int) =~= all);
    out
}

/// Whether `s` starts with `pat`.
pub fn starts_with(s: &str, pat: &str) -> (r: bool)
    ensures
        r == pat@.is_prefix_of(s@),
{
    let sv = chars(s);
    let pv = chars(pat);
    if pv.len() > sv.len() {
        return false;
    }
    let r = stands_at(&sv, &pv, 0);
    assert(s@.subrange(0, pat@.len() as int) == pat@ <==> pat@.is_prefix_of(s@));
    r
}

/// Whether `s` ends with `pat`.
pub fn ends_with(s: &str, pat: &str) -> (r: bool)
    ensures
        r == pat@.is_suffix_of(s@),
{
    let sv = chars(s);
    let pv = chars(pat);
    if pv.len() > sv.len() {
        return false;
    }
    let r = stands_at(&sv, &pv, sv.len() - pv.len());
    assert(s@.subrange(s@.len() - pat@.len(), s@.len() as int) == pat@ <==> pat@.is_suffix_of(s@));
    r
}

/// The lines of `s` that hold more than white space, without any at either end.
pub fn full_lines(s: &str) -> (r: Vec<String>)
    ensures
        r.deep_view() == full_lines_spec(s@),
{
    let all = lines(s);
    let ghost parts = lines_spec(s@);
    let mut out: Vec<String> = Vec::new();
    assert(out.deep_view() =~= trimmed_spec(parts.take(0)));
    for i in 0..all.len()
        invariant
            parts == lines_spec(s@),
            all.deep_view() == parts,
            out.deep_view() == trimmed_spec(parts.take(i as int)),
    {
        assert(parts.take(i + 1).drop_last() =~= parts.take(i as int));
        let ghost before = out.deep_view();
        let t = trim(all[i]);
        assert(t@ == trim_spec(parts[i as int]));
        if !t.is_empty() {
            out.push(t.to_string());
            assert(out.deep_view() =~= before.push(t@));
        }
    }
    assert(parts.take(parts.len() as int) =~= parts);
    out
}

/// The first item of a list, if there is one.
pub fn first(items: &Vec<String>) -> (r: Option<String>)
    ensures
        r.deep_view() == first_spec(items.deep_view()),
{
    if items.len() > 0 {
        Some(items[0].clone())
    } else {
        None
    }
}

/// Whether `c` is an ASCII letter or digit.
pub fn alnum(c: char) -> (r: bool)
    ensures
        r == is_alnum(c),
{
    ('a' <= c && c <= 'z') || ('A' <= c && c <= 'Z') || ('0' <= c && c <= '9')
}

/// The upper-case form of an ASCII letter; any other character itself.
pub fn upper_case(c: char) -> (r: char)
    ensures
        r == upper(c),
{
    if 'a' <= c && c <= 'z' {
        ((c as u8) - 32) as char
    } else {
        c
    }
}

/// The lower-case form of an ASCII letter; any other character itself.
pub fn lower_case(c: char) -> (r: char)
    ensures
        r == lower(c),
{
    if 'A' <= c && c <= 'Z' {
        ((c as u8) + 32) as char
    } else {
        c
    }
}

/// Whether `a` stands strictly before `b` in the order of code points.
pub fn text_less(a: &str, b: &str) -> (r: bool)
    ensures
        r == text_lt(a@, b@),
{
    let x = chars(a);
    let y = chars(b);
    let mut i: usize = 0;
    assert(a@.skip(0) =~= a@);
    assert(b@.skip(0) =~= b@);
    while i < x.len() && i < y.len()
        invariant
            x@ == a@,
            y@ == b@,
            i <= x@.len(),
            i <= y@.len(),
            text_lt(a@, b@) == text_lt(a@.skip(i as int), b@.skip(i as int)),
        decreases x@.len() - i,
    {
        if x[i] != y[i] {
            return x[i] < y[i];
        }
        assert(a@.skip(i as int).skip(1) =~= a@.skip(i + 1));
        assert(b@.skip(i as int).skip(1) =~= b@.skip(i + 1));
        i += 1;
    }
    i < y.len()
}

/// Two texts, one after the other.
pub fn cat(a: &str, b: &str) -> (r: String)
    ensures
        r@ == a@ + b@,
{
    let mut s = a.to_string();
    s.append(b);
    s
}

/// Three texts, one after the other.
pub fn cat3(a: &str, b: &str, c: &str) -> (r: String)
    ensures
        r@ == a@ + b@ + c@,
{
    let mut s = cat(a, b);
    s.append(c);
    s
}

/// Four texts, one after the other.
pub fn cat4(a: &str, b: &str, c: &str, d: &str) -> (r: String)
    ensures
        r@ == a@ + b@ + c@ + d@,
{
    let mut s = cat3(a, b, c);
    s.append(d);
    s
}

/// Five texts, one after the other.
pub fn cat5(a: &str, b: &str, c: &str, d: &str, e: &str) -> (r: String)
    ensures
        r@ == a@ + b@ + c@ + d@ + e@,
{
    let mut s = cat4(a, b, c, d);
    s.append(e);
    s
}

// ── laws ──────────────────────────────────────────────────────────────────────

proof fn lemma_join_front(a: Seq<char>, rest: Seq<Seq<char>>, sep: Seq<char>)
    requires
        rest.len() > 0,
    ensures
        join_spec(seq![a] + rest, sep) == a + sep + join_spec(rest, sep),
    decreases rest.len(),
{
    let all = seq![a] + rest;
    assert(all.drop_last() =~= seq![a] + rest.drop_last());
    if rest.len() == 1 {
        assert(all.drop_last() =~= seq![a]);
        assert(join_spec(all.drop_last(), sep) == a);
    } else {
        lemma_join_front(a, rest.drop_last(), sep);
        assert(join_spec(all, sep) =~= a + sep + join_spec(rest, sep));
    }
}

/// The pieces of a text hold no separator, and joined they are the text again.
pub proof fn pieces_join_again(s: Seq<char>, c: char)
    ensures
        split_spec(s, c).len() > 0,
        join_spec(split_spec(s, c), seq![c]) == s,
        forall|i: int, j: int|
            0 <= i < split_spec(s, c).len() && 0 <= j < split_spec(s, c)[i].len()
                ==> #[trigger] split_spec(s, c)[i][j] != c,
    decreases s.len(),
{
    lemma_index(s, c, 0);
    if let Some(k) = index_spec(s, c) {
        let rest = split_spec(s.skip(k + 1), c);
        pieces_join_again(s.skip(k + 1), c);
        lemma_join_front(s.take(k), rest, seq![c]);
        assert(s.take(k) + seq![c] + s.skip(k + 1) =~= s);
        let all = split_spec(s, c);
        assert(all == seq![s.take(k)] + rest);
        assert forall|i: int, j: int| 0 <= i < all.len() && 0 <= j < all[i].len() implies
            #[trigger] all[i][j] != c by {
            if i > 0 {
                assert(all[i] == rest[i - 1]);
                assert(rest[i - 1][j] != c);
            }
        }
    } else {
        assert(split_spec(s, c) == seq![s]);
    }
}

proof fn lemma_index_at(s: Seq<char>, c: char, i: int)
    requires
        0 <= i < s.len(),
        s[i] == c,
        forall|j: int| 0 <= j < i ==> s[j] != c,
    ensures
        index_spec(s, c) == Some(i),
{
    lemma_index(s, c, 0);
}

/// A line ends at the first line feed; a carriage return before that is no part
/// of it. What follows the last line feed is a line of its own, if there is
/// anything.
pub proof fn lines_end_at_line_feeds(a: Seq<char>, b: Seq<char>)
    requires
        forall|i: int| 0 <= i < a.len() ==> a[i] != '\n',
    ensures
        a.len() == 0 || a.last() != '\r' ==> lines_spec(a + seq!['\n'] + b) == seq![a] + lines_spec(
            b,
        ),
        lines_spec(a + seq!['\r', '\n'] + b) == seq![a] + lines_spec(b),
        a.len() > 0 ==> lines_spec(a) == seq![a],
{
    let s = a + seq!['\n'] + b;
    lemma_index_at(s, '\n', a.len() as int);
    assert(s.take(a.len() as int) =~= a);
    assert(s.skip(a.len() as int + 1) =~= b);
    let t = a + seq!['\r', '\n'] + b;
    assert forall|j: int| 0 <= j < a.len() + 1 implies t[j] != '\n' by {
        if j < a.len() {
            assert(t[j] == a[j]);
        }
    }
    lemma_index_at(t, '\n', a.len() as int + 1);
    assert(t.take(a.len() as int + 1) =~= a.push('\r'));
    assert(a.push('\r').drop_last() =~= a);
    assert(t.skip(a.len() as int + 2) =~= b);
    lemma_index(a, '\n', 0);
}

proof fn lemma_trim_start(s: Seq<char>) -> (k: int)
    ensures
        0 <= k <= s.len(),
        trim_start_spec(s) == s.skip(k),
        forall|i: int| 0 <= i < k ==> is_space(#[trigger] s[i]),
        k < s.len() ==> !is_space(s[k]),
    decreases s.len(),
{
    if s.len() > 0 && is_space(s[0]) {
        let rest = s.skip(1);
        let k = lemma_trim_start(rest);
        assert(rest.skip(k) =~= s.skip(k + 1));
        assert forall|i: int| 0 <= i < k + 1 implies is_space(#[trigger] s[i]) by {
            if i > 0 {
                assert(rest[i - 1] == s[i]);
            }
        }
        if k < rest.len() {
            assert(rest[k] == s[k + 1]);
        }
        k + 1
    } else {
        assert(s.skip(0) =~= s);
        0
    }
}

proof fn lemma_trim_end(s: Seq<char>) -> (k: int)
    ensures
        0 <= k <= s.len(),
        trim_end_spec(s) == s.take(k),
        forall|i: int| k <= i < s.len() ==> is_space(#[trigger] s[i]),
        k > 0 ==> !is_space(s[k - 1]),
    decreases s.len(),
{
    if s.len() > 0 && is_space(s.last()) {
        let init = s.drop_last();
        let k = lemma_trim_end(init);
        assert(init.take(k) =~= s.take(k));
        assert forall|i: int| k <= i < s.len() implies is_space(#[trigger] s[i]) by {
            if i < init.len() {
                assert(init[i] == s[i]);
            }
        }
        if k > 0 {
            assert(init[k - 1] == s[k - 1]);
        }
        k
    } else {
        assert(s.take(s.len() as int) =~= s);
        s.len() as int
    }
}

/// Trimming takes off white space at either end, all of it, and nothing else.
pub proof fn only_white_space_is_trimmed(s: Seq<char>)
    ensures
        exists|i: int, j: int|
            {
                &&& 0 <= i <= j <= s.len()
                &&& trim_spec(s) == #[trigger] s.subrange(i, j)
                &&& forall|k: int| 0 <= k < i || j <= k < s.len() ==> is_space(#[trigger] s[k])
            },
        trim_spec(s).len() > 0 ==> !is_space(trim_spec(s)[0]) && !is_space(trim_spec(s).last()),
{
    let i = lemma_trim_start(s);
    let t = s.skip(i);
    let n = lemma_trim_end(t);
    assert(t.take(n) =~= s.subrange(i, i + n));
    assert forall|k: int| 0 <= k < i || i + n <= k < s.len() implies is_space(#[trigger] s[k]) by {
        if k >= i + n {
            assert(t[k - i] == s[k]);
        }
    }
    if n > 0 {
        assert(t[n - 1] == s[i + n - 1]);
        assert(t[0] == s[i]);
    }
}

proof fn lemma_word_end_behind(a: Seq<char>, b: Seq<char>, i: int)
    requires
        0 <= i <= b.len(),
    ensures
        word_end(a + b, a.len() + i) == a.len() + word_end(b, i),
    decreases b.len() - i,
{
    if i < b.len() {
        assert((a + b)[a.len() + i] == b[i]);
        if !is_space(b[i]) {
            lemma_word_end_behind(a, b, i + 1);
        }
    }
}

proof fn lemma_words_behind(a: Seq<char>, b: Seq<char>, i: int)
    requires
        0 <= i <= b.len(),
    ensures
        words_from(a + b, a.len() + i) == words_from(b, i),
    decreases b.len() - i,
{
    let s = a + b;
    if i < b.len() {
        assert(s[a.len() + i] == b[i]);
        if is_space(b[i]) {
            lemma_words_behind(a, b, i + 1);
        } else {
            lemma_word_end_behind(a, b, i);
            lemma_word_end(b, i);
            let e = word_end(b, i);
            assert(word_end(b, i) > i) by {
                assert(word_end(b, i) == word_end(b, i + 1));
                lemma_word_end(b, i + 1);
            }
            lemma_words_behind(a, b, e);
            assert(s.subrange(a.len() + i, a.len() + e) =~= b.subrange(i, e));
        }
    }
}

/// White space separates words and is no part of them: a word is read up to the
/// white space behind it, and white space in front is passed over.
pub proof fn words_are_separated_by_white_space(w: Seq<char>, c: char, rest: Seq<char>)
    requires
        is_space(c),
        forall|i: int| 0 <= i < w.len() ==> !is_space(#[trigger] w[i]),
    ensures
        words_spec(seq![c] + rest) == words_spec(rest),
        w.len() > 0 ==> words_spec(w) == seq![w],
        w.len() > 0 ==> words_spec(w + seq![c] + rest) == seq![w] + words_spec(rest),
{
    let none: Seq<char> = seq![];
    assert((seq![c] + rest)[0] == c);
    lemma_words_behind(seq![c], rest, 0);
    if w.len() > 0 {
        let s = w + seq![c] + rest;
        let n = w.len() as int;
        lemma_word_end(w, 0);
        assert(word_end(w, 0) == n);
        assert(w.subrange(0, n) =~= w);
        assert(words_from(w, n) =~= seq![]);
        assert(words_spec(w) =~= seq![w]);
        lemma_word_end(s, 0);
        assert(word_end(s, 0) == n) by {
            assert(s[n] == c);
            if word_end(s, 0) < n {
                assert(s[word_end(s, 0)] == w[word_end(s, 0)]);
            }
        }
        assert(s[0] == w[0]);
        assert(s.subrange(0, n) =~= w);
        lemma_words_behind(w + seq![c], rest, 0);
        assert(words_from(s, n) == words_from(s, n + 1)) by {
            assert(s[n] == c);
        }
    }
}

/// Every occurrence is replaced, from left to right, and the rest is kept.
pub proof fn every_occurrence_is_replaced(a: Seq<char>, pat: Seq<char>, b: Seq<char>, to: Seq<char>)
    requires
        pat.len() > 0,
        forall|i: int| 0 <= i < a.len() ==> !occurs_at(a + pat + b, pat, i),
    ensures
        replace_spec(a + pat + b, pat, to) == a + to + replace_spec(b, pat, to),
        !contains_spec(b, pat) ==> replace_spec(b, pat, to) == b,
{
    let s = a + pat + b;
    let n = a.len() as int;
    assert(s.subrange(n, n + pat.len()) =~= pat);
    assert(occurs_at(s, pat, n));
    lemma_find(s, pat, 0);
    assert(find_spec(s, pat) == Some(n));
    assert(s.take(n) =~= a);
    assert(s.skip(n + pat.len()) =~= b);
    lemma_find_contains(b, pat);
}

/// What is stripped from the end of a text is a run of the one character, all of
/// it, and nothing else.
pub proof fn only_the_run_is_stripped(s: Seq<char>, c: char)
    ensures
        ({
            let t = strip_end_spec(s, c);
            &&& t.len() <= s.len()
            &&& t == s.take(t.len() as int)
            &&& t.len() > 0 ==> t.last() != c
            &&& forall|i: int| t.len() <= i < s.len() ==> #[trigger] s[i] == c
        }),
    decreases s.len(),
{
    if s.len() > 0 && s.last() == c {
        let init = s.drop_last();
        only_the_run_is_stripped(init, c);
        let t = strip_end_spec(s, c);
        assert(init.take(t.len() as int) =~= s.take(t.len() as int));
        assert forall|i: int| t.len() <= i < s.len() implies #[trigger] s[i] == c by {
            if i < init.len() {
                assert(init[i] == s[i]);
            }
        }
    } else {
        assert(s.take(s.len() as int) =~= s);
    }
}

/// The full lines of a text are its lines that hold more than white space,
/// trimmed.
pub proof fn full_lines_are_the_trimmed_ones(parts: Seq<Seq<char>>, x: Seq<char>)
    ensures
        trimmed_spec(parts).contains(x) <==> x.len() > 0 && exists|i: int|
            0 <= i < parts.len() && trim_spec(#[trigger] parts[i]) == x,
    decreases parts.len(),
{
    if parts.len() > 0 {
        let init = parts.drop_last();
        full_lines_are_the_trimmed_ones(init, x);
        let rest = trimmed_spec(init);
        let last = trim_spec(parts.last());
        let all = trimmed_spec(parts);
        assert(parts[parts.len() - 1] == parts.last());
        assert forall|i: int| 0 <= i < init.len() implies init[i] == #[trigger] parts[i] by {}
        assert forall|i: int| 0 <= i < init.len() implies #[trigger] init[i] == parts[i] by {}
        if last.len() > 0 {
            assert(all[rest.len() as int] == last);
            if rest.contains(x) {
                let i = choose|i: int| 0 <= i < rest.len() && rest[i] == x;
                assert(all[i] == x);
            }
            if all.contains(x) {
                let i = choose|i: int| 0 <= i < all.len() && all[i] == x;
                if i < rest.len() {
                    assert(rest[i] == x);
                }
            }
        }
    }
}

/// The first full line of a text is its first line, trimmed, where that holds
/// more than white space; lines that hold nothing else are passed over.
pub proof fn first_full_line_comes_first(a: Seq<char>, b: Seq<char>)
    requires
        forall|i: int| 0 <= i < a.len() ==> a[i] != '\n',
        a.len() == 0 || a.last() != '\r',
    ensures
        trim_spec(a).len() > 0 ==> first_spec(full_lines_spec(a + seq!['\n'] + b)) == Some(
            trim_spec(a),
        ),
        trim_spec(a).len() == 0 ==> full_lines_spec(a + seq!['\n'] + b) == full_lines_spec(b),
{
    lines_end_at_line_feeds(a, b);
    lemma_trimmed_front(a, lines_spec(b));
}

proof fn lemma_trimmed_front(a: Seq<char>, rest: Seq<Seq<char>>)
    ensures
        trimmed_spec(seq![a] + rest) == (if trim_spec(a).len() == 0 {
            trimmed_spec(rest)
        } else {
            seq![trim_spec(a)] + trimmed_spec(rest)
        }),
    decreases rest.len(),
{
    let all = seq![a] + rest;
    if rest.len() == 0 {
        assert(all.drop_last() =~= seq![]);
        assert(all.last() == a);
        assert(trimmed_spec(all.drop_last()) =~= seq![]);
        assert(trimmed_spec(all) =~= if trim_spec(a).len() == 0 {
            trimmed_spec(rest)
        } else {
            seq![trim_spec(a)] + trimmed_spec(rest)
        });
    } else {
        assert(all.drop_last() =~= seq![a] + rest.drop_last());
        assert(all.last() == rest.last());
        lemma_trimmed_front(a, rest.drop_last());
        assert(trimmed_spec(all) =~= if trim_spec(a).len() == 0 {
            trimmed_spec(rest)
        } else {
            seq![trim_spec(a)] + trimmed_spec(rest)
        });
    }
}

} // verus!
