//! The annotation grammar: anchored, case-insensitive patterns over the text
//! of a security label. Whitespace may pad a label and separate its words; a
//! captured expression runs to the end of the label, its trailing whitespace
//! left out.
use vstd::prelude::*;

verus! {

/// The characters that Unicode calls white space.
pub open spec fn is_ws(c: char) -> bool {
    ('\t' <= c <= '\r') || c == ' ' || c == '\u{85}' || c == '\u{A0}' || c == '\u{1680}' || (
    '\u{2000}' <= c <= '\u{200A}') || c == '\u{2028}' || c == '\u{2029}' || c == '\u{202F}' || c
        == '\u{205F}' || c == '\u{3000}'
}

/// `s` holds nothing but whitespace.
pub open spec fn all_ws(s: Seq<char>) -> bool {
    forall|i: int| 0 <= i < s.len() ==> is_ws(#[trigger] s[i])
}

/// Drops the leading whitespace of `s`.
pub open spec fn skip_ws(s: Seq<char>) -> Seq<char>
    decreases s.len(),
{
    if s.len() > 0 && is_ws(s[0]) {
        skip_ws(s.drop_first())
    } else {
        s
    }
}

/// Drops the trailing whitespace of `s`.
pub open spec fn trim_end_ws(s: Seq<char>) -> Seq<char>
    decreases s.len(),
{
    if s.len() > 0 && is_ws(s.last()) {
        trim_end_ws(s.drop_last())
    } else {
        s
    }
}

/// `c` is a letter that stands for the upper-case ASCII letter `k` when case
/// is ignored. Besides the two ASCII cases, the Kelvin sign folds onto `K`
/// and the long s onto `S`.
pub open spec fn folds_to(c: char, k: char) -> bool {
    ('A' <= c <= 'Z' && c == k) || ('a' <= c <= 'z' && c as u32 == k as u32 + 32) || (c
        == '\u{212A}' && k == 'K') || (c == '\u{17F}' && k == 'S')
}

/// `s` begins with the keyword `w`, letter case ignored.
pub open spec fn starts_with_word(s: Seq<char>, w: Seq<char>) -> bool {
    w.len() <= s.len() && forall|j: int| 0 <= j < w.len() ==> folds_to(#[trigger] s[j], w[j])
}

/// Reads the keywords `ws` in turn from the start of `s`, each one after the
/// first preceded by at least one whitespace character; the text after the
/// last keyword.
pub open spec fn after_words(s: Seq<char>, ws: Seq<Seq<char>>) -> Option<Seq<char>>
    decreases ws.len(),
{
    if ws.len() == 0 {
        Some(s)
    } else if starts_with_word(s, ws[0]) {
        let r = s.skip(ws[0].len() as int);
        if ws.len() == 1 {
            Some(r)
        } else if r.len() > 0 && is_ws(r[0]) {
            after_words(skip_ws(r), ws.drop_first())
        } else {
            None
        }
    } else {
        None
    }
}

/// `s` is exactly the keywords `ws`, with whitespace around them.
pub open spec fn matches_words(s: Seq<char>, ws: Seq<Seq<char>>) -> bool {
    match after_words(skip_ws(s), ws) {
        Some(r) => all_ws(r),
        None => false,
    }
}

/// `s` is the keywords `ws`, whitespace, then the captured expression: the
/// rest of the label without its trailing whitespace. An expression that is
/// empty is no match.
pub open spec fn capture_after_words(s: Seq<char>, ws: Seq<Seq<char>>) -> Option<Seq<char>> {
    match after_words(skip_ws(s), ws) {
        Some(r) => if r.len() > 0 && is_ws(r[0]) && skip_ws(r).len() > 0 {
            Some(trim_end_ws(skip_ws(r)))
        } else {
            None
        },
        None => None,
    }
}


pub open spec fn word_masked() -> Seq<char> {
    seq!['M', 'A', 'S', 'K', 'E', 'D']
}

pub open spec fn word_not() -> Seq<char> {
    seq!['N', 'O', 'T']
}

pub open spec fn word_with() -> Seq<char> {
    seq!['W', 'I', 'T', 'H']
}

pub open spec fn word_value() -> Seq<char> {
    seq!['V', 'A', 'L', 'U', 'E']
}

pub open spec fn word_function() -> Seq<char> {
    seq!['F', 'U', 'N', 'C', 'T', 'I', 'O', 'N']
}

pub open spec fn word_trusted() -> Seq<char> {
    seq!['T', 'R', 'U', 'S', 'T', 'E', 'D']
}

pub open spec fn word_tablesample() -> Seq<char> {
    seq!['T', 'A', 'B', 'L', 'E', 'S', 'A', 'M', 'P', 'L', 'E']
}

pub open spec fn word_quasi() -> Seq<char> {
    seq!['Q', 'U', 'A', 'S', 'I']
}

pub open spec fn word_indirect() -> Seq<char> {
    seq!['I', 'N', 'D', 'I', 'R', 'E', 'C', 'T']
}

pub open spec fn word_identifier() -> Seq<char> {
    seq!['I', 'D', 'E', 'N', 'T', 'I', 'F', 'I', 'E', 'R']
}

/// `MASKED`
pub open spec fn spec_is_masked(s: Seq<char>) -> bool {
    matches_words(s, seq![word_masked()])
}

/// `NOT MASKED`
pub open spec fn spec_is_not_masked(s: Seq<char>) -> bool {
    matches_words(s, seq![word_not(), word_masked()])
}

/// `TRUSTED`
pub open spec fn spec_is_trusted(s: Seq<char>) -> bool {
    matches_words(s, seq![word_trusted()])
}

/// `QUASI IDENTIFIER` or `INDIRECT IDENTIFIER`
pub open spec fn spec_is_indirect_identifier(s: Seq<char>) -> bool {
    matches_words(s, seq![word_quasi(), word_identifier()]) || matches_words(
        s,
        seq![word_indirect(), word_identifier()],
    )
}

/// `TABLESAMPLE <expr>`
pub open spec fn spec_tablesample(s: Seq<char>) -> Option<Seq<char>> {
    capture_after_words(s, seq![word_tablesample()])
}

/// `MASKED WITH FUNCTION <expr>`
pub open spec fn spec_function(s: Seq<char>) -> Option<Seq<char>> {
    capture_after_words(s, seq![word_masked(), word_with(), word_function()])
}

/// `MASKED WITH VALUE <expr>`
pub open spec fn spec_value(s: Seq<char>) -> Option<Seq<char>> {
    capture_after_words(s, seq![word_masked(), word_with(), word_value()])
}

pub open spec fn view_words(ws: Seq<Vec<char>>) -> Seq<Seq<char>> {
    ws.map_values(|w: Vec<char>| w@)
}

fn chars_of(s: &str) -> (v: Vec<char>)
    ensures
        v@ == s@,
{
    let n = s.unicode_len();
    let mut v: Vec<char> = Vec::new();
    let mut i: usize = 0;
    while i < n
        invariant
            n == s@.len(),
            i <= n,
            v@ == s@.subrange(0, i as int),
        decreases n - i,
    {
        v.push(s.get_char(i));
        i += 1;
    }
    assert(v@ =~= s@);
    v
}

fn char_folds_to(c: char, k: char) -> (r: bool)
    ensures
        r == folds_to(c, k),
{
    let cu = c as u32;
    ('A' <= c && c <= 'Z' && c == k) || ('a' <= c && c <= 'z' && cu >= 32 && cu - 32 == k as u32)
        || (c == '\u{212A}' && k == 'K') || (c == '\u{17F}' && k == 'S')
}


fn char_is_ws(c: char) -> (r: bool)
    ensures
        r == is_ws(c),
{
    ('\t' <= c && c <= '\r') || c == ' ' || c == '\u{85}' || c == '\u{A0}' || c == '\u{1680}' || (
    '\u{2000}' <= c && c <= '\u{200A}') || c == '\u{2028}' || c == '\u{2029}' || c == '\u{202F}'
        || c == '\u{205F}' || c == '\u{3000}'
}

fn skip_ws_at(v: &Vec<char>, i: usize) -> (j: usize)
    requires
        i <= v.len(),
    ensures
        i <= j <= v.len(),
        v@.skip(j as int) == skip_ws(v@.skip(i as int)),
{
    let mut j = i;
    while j < v.len() && char_is_ws(v[j])
        invariant
            i <= j <= v.len(),
            skip_ws(v@.skip(j as int)) == skip_ws(v@.skip(i as int)),
        decreases v.len() - j,
    {
        assert(v@.skip(j as int).drop_first() =~= v@.skip(j + 1));
        j += 1;
    }
    j
}

/// The end of `v[i..n]` once its trailing whitespace is dropped.
fn trim_end_at(v: &Vec<char>, i: usize, n: usize) -> (j: usize)
    requires
        i <= n <= v.len(),
    ensures
        i <= j <= n,
        v@.subrange(i as int, j as int) == trim_end_ws(v@.subrange(i as int, n as int)),
{
    let mut j = n;
    while j > i && char_is_ws(v[j - 1])
        invariant
            i <= j <= n <= v.len(),
            trim_end_ws(v@.subrange(i as int, j as int)) == trim_end_ws(
                v@.subrange(i as int, n as int),
            ),
        decreases j,
    {
        assert(v@.subrange(i as int, j as int).drop_last() =~= v@.subrange(i as int, j - 1));
        j -= 1;
    }
    j
}

fn word_at(v: &Vec<char>, i: usize, w: &Vec<char>) -> (r: bool)
    requires
        i <= v.len(),
    ensures
        r == starts_with_word(v@.skip(i as int), w@),
{
    if w.len() > v.len() - i {
        return false;
    }
    let mut k: usize = 0;
    while k < w.len()
        invariant
            k <= w.len(),
            i + w.len() <= v.len(),
            forall|j: int| 0 <= j < k ==> folds_to(#[trigger] v@.skip(i as int)[j], w@[j]),
        decreases w.len() - k,
    {
        if !char_folds_to(v[i + k], w[k]) {
            assert(v@.skip(i as int)[k as int] == v@[i + k]);
            return false;
        }
        k += 1;
    }
    true
}

fn after_words_at(v: &Vec<char>, i: usize, ws: &Vec<Vec<char>>) -> (r: Option<usize>)
    requires
        i <= v.len(),
    ensures
        match r {
            Some(j) => i <= j <= v.len() && after_words(v@.skip(i as int), view_words(ws@)) == Some(
                v@.skip(j as int),
            ),
            None => after_words(v@.skip(i as int), view_words(ws@)) is None,
        },
{
    let ghost wv = view_words(ws@);
    let n = ws.len();
    if n == 0 {
        return Some(i);
    }
    let mut pos = i;
    let mut k: usize = 0;
    assert(wv.skip(0) =~= wv);
    loop
        invariant
            k < n,
            n == ws.len(),
            wv == view_words(ws@),
            i <= pos <= v.len(),
            after_words(v@.skip(i as int), wv) == after_words(v@.skip(pos as int), wv.skip(k as int)),
        decreases n - k,
    {
        let ghost rest = wv.skip(k as int);
        assert(rest[0] == ws@[k as int]@);
        assert(rest.drop_first() =~= wv.skip(k + 1));
        if !word_at(v, pos, &ws[k]) {
            return None;
        }
        let r = pos + ws[k].len();
        assert(v@.skip(pos as int).skip(ws@[k as int]@.len() as int) =~= v@.skip(r as int));
        if k + 1 == n {
            return Some(r);
        }
        if r < v.len() && char_is_ws(v[r]) {
            pos = skip_ws_at(v, r);
            k += 1;
        } else {
            return None;
        }
    }
}

fn matches_at(v: &Vec<char>, ws: &Vec<Vec<char>>) -> (r: bool)
    ensures
        r == matches_words(v@, view_words(ws@)),
{
    assert(v@.skip(0) =~= v@);
    let p = skip_ws_at(v, 0);
    match after_words_at(v, p, ws) {
        Some(e) => {
            let q = skip_ws_at(v, e);
            proof {
                lemma_skip_ws_append(v@.skip(e as int), Seq::<char>::empty());
            }
            q == v.len()
        },
        None => false,
    }
}

fn capture_at(s: &str, ws: &Vec<Vec<char>>) -> (r: Option<String>)
    ensures
        match r {
            Some(c) => capture_after_words(s@, view_words(ws@)) == Some(c@),
            None => capture_after_words(s@, view_words(ws@)) is None,
        },
{
    let v = chars_of(s);
    assert(v@.skip(0) =~= v@);
    let p = skip_ws_at(&v, 0);
    match after_words_at(&v, p, ws) {
        Some(e) => {
            if e < v.len() && char_is_ws(v[e]) {
                let q = skip_ws_at(&v, e);
                if q == v.len() {
                    return None;
                }
                assert(v@.skip(q as int) =~= v@.subrange(q as int, v.len() as int));
                let end = trim_end_at(&v, q, v.len());
                Some(String::from_str(s.substring_char(q, end)))
            } else {
                None
            }
        },
        None => None,
    }
}

fn kw_masked() -> (w: Vec<char>)
    ensures
        w@ == word_masked(),
{
    let w = vec!['M', 'A', 'S', 'K', 'E', 'D'];
    assert(w@ =~= word_masked());
    w
}

fn kw_not() -> (w: Vec<char>)
    ensures
        w@ == word_not(),
{
    let w = vec!['N', 'O', 'T'];
    assert(w@ =~= word_not());
    w
}

fn kw_with() -> (w: Vec<char>)
    ensures
        w@ == word_with(),
{
    let w = vec!['W', 'I', 'T', 'H'];
    assert(w@ =~= word_with());
    w
}

/// Recognizes `MASKED`.
pub fn is_match_masked(haystack: &str) -> (r: bool)
    ensures
        r == spec_is_masked(haystack@),
{
    let ws = vec![kw_masked()];
    assert(view_words(ws@) =~= seq![word_masked()]);
    matches_at(&chars_of(haystack), &ws)
}

/// Recognizes `NOT MASKED`.
pub fn is_match_not_masked(haystack: &str) -> (r: bool)
    ensures
        r == spec_is_not_masked(haystack@),
{
    let ws = vec![kw_not(), kw_masked()];
    assert(view_words(ws@) =~= seq![word_not(), word_masked()]);
    matches_at(&chars_of(haystack), &ws)
}

/// Recognizes `TRUSTED`.
pub fn is_match_trusted(haystack: &str) -> (r: bool)
    ensures
        r == spec_is_trusted(haystack@),
{
    let w = vec!['T', 'R', 'U', 'S', 'T', 'E', 'D'];
    assert(w@ =~= word_trusted());
    let ws = vec![w];
    assert(view_words(ws@) =~= seq![word_trusted()]);
    matches_at(&chars_of(haystack), &ws)
}

/// Recognizes `QUASI IDENTIFIER` and `INDIRECT IDENTIFIER`.
pub fn is_match_indirect_identifier(haystack: &str) -> (r: bool)
    ensures
        r == spec_is_indirect_identifier(haystack@),
{
    let v = chars_of(haystack);
    let quasi = vec!['Q', 'U', 'A', 'S', 'I'];
    assert(quasi@ =~= word_quasi());
    let indirect = vec!['I', 'N', 'D', 'I', 'R', 'E', 'C', 'T'];
    assert(indirect@ =~= word_indirect());
    let id1 = vec!['I', 'D', 'E', 'N', 'T', 'I', 'F', 'I', 'E', 'R'];
    assert(id1@ =~= word_identifier());
    let id2 = id1.clone();
    let first = vec![quasi, id1];
    assert(view_words(first@) =~= seq![word_quasi(), word_identifier()]);
    let second = vec![indirect, id2];
    assert(view_words(second@) =~= seq![word_indirect(), word_identifier()]);
    matches_at(&v, &first) || matches_at(&v, &second)
}

/// Recognizes `TABLESAMPLE <expr>`.
pub fn is_match_tablesample(haystack: &str) -> (r: bool)
    ensures
        r == spec_tablesample(haystack@) is Some,
{
    let w = vec!['T', 'A', 'B', 'L', 'E', 'S', 'A', 'M', 'P', 'L', 'E'];
    assert(w@ =~= word_tablesample());
    let ws = vec![w];
    assert(view_words(ws@) =~= seq![word_tablesample()]);
    capture_at(haystack, &ws).is_some()
}

/// The expression of `TABLESAMPLE <expr>`, verbatim up to its trailing
/// whitespace.
pub fn capture_tablesample(haystack: &str) -> (r: Option<String>)
    ensures
        r matches Some(c) ==> spec_tablesample(haystack@) == Some(c@),
        r is None <==> spec_tablesample(haystack@) is None,
{
    let w = vec!['T', 'A', 'B', 'L', 'E', 'S', 'A', 'M', 'P', 'L', 'E'];
    assert(w@ =~= word_tablesample());
    let ws = vec![w];
    assert(view_words(ws@) =~= seq![word_tablesample()]);
    capture_at(haystack, &ws)
}

/// The expression of `MASKED WITH FUNCTION <expr>`, verbatim to the end of
/// the label, its trailing whitespace left out.
pub fn capture_function(haystack: &str) -> (r: Option<String>)
    ensures
        r matches Some(c) ==> spec_function(haystack@) == Some(c@),
        r is None <==> spec_function(haystack@) is None,
{
    let w = vec!['F', 'U', 'N', 'C', 'T', 'I', 'O', 'N'];
    assert(w@ =~= word_function());
    let ws = vec![kw_masked(), kw_with(), w];
    assert(view_words(ws@) =~= seq![word_masked(), word_with(), word_function()]);
    capture_at(haystack, &ws)
}

/// The expression of `MASKED WITH VALUE <expr>`, verbatim to the end of the
/// label.
pub fn capture_value(haystack: &str) -> (r: Option<String>)
    ensures
        r matches Some(c) ==> spec_value(haystack@) == Some(c@),
        r is None <==> spec_value(haystack@) is None,
{
    let w = vec!['V', 'A', 'L', 'U', 'E'];
    assert(w@ =~= word_value());
    let ws = vec![kw_masked(), kw_with(), w];
    assert(view_words(ws@) =~= seq![word_masked(), word_with(), word_value()]);
    capture_at(haystack, &ws)
}

/// Every keyword has at least one letter.
pub open spec fn words_nonempty(ws: Seq<Seq<char>>) -> bool {
    forall|k: int| 0 <= k < ws.len() ==> #[trigger] ws[k].len() > 0
}

proof fn lemma_skip_ws_prefix(p: Seq<char>, s: Seq<char>)
    requires
        all_ws(p),
    ensures
        skip_ws(p + s) == skip_ws(s),
    decreases p.len(),
{
    if p.len() > 0 {
        assert((p + s)[0] == p[0]);
        assert((p + s).drop_first() =~= p.drop_first() + s);
        assert(all_ws(p.drop_first())) by {
            assert forall|i: int| 0 <= i < p.drop_first().len() implies is_ws(
                #[trigger] p.drop_first()[i],
            ) by {
                assert(p.drop_first()[i] == p[i + 1]);
            }
        }
        lemma_skip_ws_prefix(p.drop_first(), s);
    } else {
        assert(p + s =~= s);
    }
}

proof fn lemma_skip_ws_append(r: Seq<char>, x: Seq<char>)
    ensures
        skip_ws(r).len() == 0 <==> all_ws(r),
        skip_ws(r).len() > 0 ==> skip_ws(r + x) == skip_ws(r) + x,
        all_ws(r) ==> skip_ws(r + x) == skip_ws(x),
    decreases r.len(),
{
    if r.len() == 0 {
        assert(r + x =~= x);
    } else if is_ws(r[0]) {
        let d = r.drop_first();
        assert((r + x).drop_first() =~= d + x);
        assert((r + x)[0] == r[0]);
        lemma_skip_ws_append(d, x);
        if all_ws(d) {
            assert forall|i: int| 0 <= i < r.len() implies is_ws(#[trigger] r[i]) by {
                if i > 0 {
                    assert(r[i] == d[i - 1]);
                }
            }
        }
        if all_ws(r) {
            assert forall|i: int| 0 <= i < d.len() implies is_ws(#[trigger] d[i]) by {
                assert(d[i] == r[i + 1]);
            }
        }
    } else {
        assert((r + x)[0] == r[0]);
        assert(!is_ws(r[0]));
    }
}

proof fn lemma_trim_end_append(x: Seq<char>, p: Seq<char>)
    requires
        all_ws(p),
    ensures
        trim_end_ws(x + p) == trim_end_ws(x),
    decreases p.len(),
{
    if p.len() > 0 {
        let d = p.drop_last();
        assert((x + p).last() == p.last());
        assert(is_ws(p[p.len() - 1]));
        assert((x + p).drop_last() =~= x + d);
        assert(all_ws(d)) by {
            assert forall|i: int| 0 <= i < d.len() implies is_ws(#[trigger] d[i]) by {
                assert(d[i] == p[i]);
            }
        }
        lemma_trim_end_append(x, d);
    } else {
        assert(x + p =~= x);
    }
}

proof fn lemma_after_words_pad(u: Seq<char>, p: Seq<char>, ws: Seq<Seq<char>>)
    requires
        all_ws(p),
        words_nonempty(ws),
    ensures
        after_words(u + p, ws) == match after_words(u, ws) {
            Some(r) => Some(r + p),
            None => None::<Seq<char>>,
        },
    decreases ws.len(),
{
    if ws.len() > 0 {
        let w = ws[0];
        assert(w.len() > 0);
        if starts_with_word(u + p, w) && !starts_with_word(u, w) {
            if w.len() <= u.len() {
                assert forall|j: int| 0 <= j < w.len() implies folds_to(#[trigger] u[j], w[j]) by {
                    assert((u + p)[j] == u[j]);
                }
            } else {
                assert((u + p)[u.len() as int] == p[0]);
                assert(is_ws(p[0]));
                assert(folds_to((u + p)[u.len() as int], w[u.len() as int]));
            }
        }
        if starts_with_word(u, w) {
            assert forall|j: int| 0 <= j < w.len() implies folds_to(#[trigger] (u + p)[j], w[j]) by {
                assert((u + p)[j] == u[j]);
            }
            let r = u.skip(w.len() as int);
            assert((u + p).skip(w.len() as int) =~= r + p);
            if ws.len() > 1 {
                let rest = ws.drop_first();
                assert(words_nonempty(rest)) by {
                    assert forall|k: int| 0 <= k < rest.len() implies #[trigger] rest[k].len() > 0 by {
                        assert(rest[k] == ws[k + 1]);
                    }
                }
                assert(rest[0].len() > 0);
                lemma_skip_ws_append(r, p);
                lemma_skip_ws_append(p, Seq::<char>::empty());
                assert(p + Seq::<char>::empty() =~= p);
                if r.len() > 0 {
                    assert((r + p)[0] == r[0]);
                    if is_ws(r[0]) {
                        if skip_ws(r).len() > 0 {
                            lemma_after_words_pad(skip_ws(r), p, rest);
                        } else {
                            assert(!starts_with_word(skip_ws(r), rest[0]));
                            assert(!starts_with_word(skip_ws(r + p), rest[0]));
                            assert(after_words(skip_ws(r), rest) is None);
                            assert(after_words(skip_ws(r + p), rest) is None);
                        }
                    }
                } else if p.len() > 0 {
                    assert(r + p =~= p);
                    assert(is_ws(p[0]));
                    assert(skip_ws(r + p).len() == 0);
                    assert(!starts_with_word(skip_ws(r + p), rest[0]));
                    assert(after_words(skip_ws(r + p), rest) is None);
                } else {
                    assert(r + p =~= r);
                }
            }
        }
    }
}

proof fn lemma_after_words_append(t: Seq<char>, x: Seq<char>, ws: Seq<Seq<char>>)
    requires
        words_nonempty(ws),
        after_words(t, ws) is Some,
    ensures
        after_words(t + x, ws) == Some(after_words(t, ws)->0 + x),
    decreases ws.len(),
{
    if ws.len() > 0 {
        let w = ws[0];
        assert forall|j: int| 0 <= j < w.len() implies folds_to(#[trigger] (t + x)[j], w[j]) by {
            assert((t + x)[j] == t[j]);
        }
        let r = t.skip(w.len() as int);
        assert((t + x).skip(w.len() as int) =~= r + x);
        if ws.len() > 1 {
            let rest = ws.drop_first();
            assert(words_nonempty(rest)) by {
                assert forall|k: int| 0 <= k < rest.len() implies #[trigger] rest[k].len() > 0 by {
                    assert(rest[k] == ws[k + 1]);
                }
            }
            assert(rest[0].len() > 0);
            assert((r + x)[0] == r[0]);
            assert(after_words(skip_ws(r), rest) is Some);
            assert(starts_with_word(skip_ws(r), rest[0]));
            assert(skip_ws(r).len() > 0);
            lemma_skip_ws_append(r, x);
            lemma_after_words_append(skip_ws(r), x, rest);
        }
    }
}

proof fn lemma_matches_padded(s: Seq<char>, p1: Seq<char>, p2: Seq<char>, ws: Seq<Seq<char>>)
    requires
        all_ws(p1),
        all_ws(p2),
        ws.len() > 0,
        words_nonempty(ws),
    ensures
        matches_words(p1 + s + p2, ws) == matches_words(s, ws),
{
    assert(p1 + s + p2 =~= p1 + (s + p2));
    lemma_skip_ws_prefix(p1, s + p2);
    lemma_skip_ws_append(s, p2);
    lemma_skip_ws_append(p2, Seq::<char>::empty());
    let t = skip_ws(s);
    assert(ws[0].len() > 0);
    if t.len() > 0 {
        lemma_after_words_pad(t, p2, ws);
        if let Some(r) = after_words(t, ws) {
            lemma_skip_ws_append(r, p2);
            lemma_skip_ws_append(r + p2, Seq::<char>::empty());
        }
    } else {
        assert(!starts_with_word(t, ws[0]));
        assert(!starts_with_word(skip_ws(s + p2), ws[0]));
    }
}

proof fn lemma_capture_padded(s: Seq<char>, p1: Seq<char>, p2: Seq<char>, ws: Seq<Seq<char>>)
    requires
        all_ws(p1),
        all_ws(p2),
        ws.len() > 0,
        words_nonempty(ws),
    ensures
        capture_after_words(p1 + s + p2, ws) == capture_after_words(s, ws),
{
    assert(p1 + s + p2 =~= p1 + (s + p2));
    lemma_skip_ws_prefix(p1, s + p2);
    lemma_skip_ws_append(s, p2);
    lemma_skip_ws_append(p2, Seq::<char>::empty());
    let t = skip_ws(s);
    assert(ws[0].len() > 0);
    if t.len() > 0 {
        lemma_after_words_pad(t, p2, ws);
        if let Some(r) = after_words(t, ws) {
            lemma_skip_ws_append(r, p2);
            if r.len() > 0 {
                assert((r + p2)[0] == r[0]);
            } else {
                assert(r + p2 =~= p2);
            }
            if skip_ws(r).len() > 0 {
                lemma_trim_end_append(skip_ws(r), p2);
            }
        }
    } else {
        assert(!starts_with_word(t, ws[0]));
        assert(!starts_with_word(skip_ws(s + p2), ws[0]));
    }
}

proof fn lemma_grammar_words_nonempty()
    ensures
        words_nonempty(seq![word_masked()]),
        words_nonempty(seq![word_not(), word_masked()]),
        words_nonempty(seq![word_trusted()]),
        words_nonempty(seq![word_quasi(), word_identifier()]),
        words_nonempty(seq![word_indirect(), word_identifier()]),
        words_nonempty(seq![word_tablesample()]),
        words_nonempty(seq![word_masked(), word_with(), word_function()]),
        words_nonempty(seq![word_masked(), word_with(), word_value()]),
{
}

/// Whitespace around a label never changes whether it is `MASKED`,
/// `NOT MASKED`, `TRUSTED` or a quasi identifier.
pub proof fn lemma_padding_keeps_bare_patterns(s: Seq<char>, p1: Seq<char>, p2: Seq<char>)
    requires
        all_ws(p1),
        all_ws(p2),
    ensures
        spec_is_masked(p1 + s + p2) == spec_is_masked(s),
        spec_is_not_masked(p1 + s + p2) == spec_is_not_masked(s),
        spec_is_trusted(p1 + s + p2) == spec_is_trusted(s),
        spec_is_indirect_identifier(p1 + s + p2) == spec_is_indirect_identifier(s),
{
    lemma_grammar_words_nonempty();
    lemma_matches_padded(s, p1, p2, seq![word_masked()]);
    lemma_matches_padded(s, p1, p2, seq![word_not(), word_masked()]);
    lemma_matches_padded(s, p1, p2, seq![word_trusted()]);
    lemma_matches_padded(s, p1, p2, seq![word_quasi(), word_identifier()]);
    lemma_matches_padded(s, p1, p2, seq![word_indirect(), word_identifier()]);
}

/// Whitespace around a label never changes what `MASKED WITH VALUE`,
/// `MASKED WITH FUNCTION` and `TABLESAMPLE` capture, nor whether they match.
pub proof fn lemma_padding_keeps_captures(s: Seq<char>, p1: Seq<char>, p2: Seq<char>)
    requires
        all_ws(p1),
        all_ws(p2),
    ensures
        spec_value(p1 + s + p2) == spec_value(s),
        spec_function(p1 + s + p2) == spec_function(s),
        spec_tablesample(p1 + s + p2) == spec_tablesample(s),
{
    lemma_grammar_words_nonempty();
    lemma_capture_padded(s, p1, p2, seq![word_masked(), word_with(), word_value()]);
    lemma_capture_padded(s, p1, p2, seq![word_masked(), word_with(), word_function()]);
    lemma_capture_padded(s, p1, p2, seq![word_tablesample()]);
}

/// The keywords `ws`, each followed by one blank.
pub open spec fn spaced_words(ws: Seq<Seq<char>>) -> Seq<char>
    decreases ws.len(),
{
    if ws.len() == 0 {
        Seq::empty()
    } else {
        ws[0] + seq![' '] + spaced_words(ws.drop_first())
    }
}

/// Every keyword is made of upper-case ASCII letters, at least one.
pub open spec fn upper_words(ws: Seq<Seq<char>>) -> bool {
    forall|k: int|
        0 <= k < ws.len() ==> #[trigger] ws[k].len() > 0 && forall|j: int|
            0 <= j < ws[k].len() ==> 'A' <= #[trigger] ws[k][j] <= 'Z'
}

proof fn lemma_after_spaced_words(ws: Seq<Seq<char>>, x: Seq<char>)
    requires
        ws.len() > 0,
        upper_words(ws),
    ensures
        after_words(spaced_words(ws) + x, ws) == Some(seq![' '] + x),
    decreases ws.len(),
{
    let w = ws[0];
    let rest = ws.drop_first();
    let s = spaced_words(ws) + x;
    assert(s =~= w + (seq![' '] + spaced_words(rest) + x));
    assert forall|j: int| 0 <= j < w.len() implies folds_to(#[trigger] s[j], w[j]) by {
        assert(s[j] == w[j]);
    }
    let r = s.skip(w.len() as int);
    assert(r =~= seq![' '] + spaced_words(rest) + x);
    if ws.len() > 1 {
        assert(upper_words(rest)) by {
            assert forall|k: int| 0 <= k < rest.len() implies #[trigger] rest[k].len() > 0
                && forall|j: int| 0 <= j < rest[k].len() ==> 'A' <= #[trigger] rest[k][j] <= 'Z' by {
                assert(rest[k] == ws[k + 1]);
            }
        }
        let t = spaced_words(rest) + x;
        assert(rest[0].len() > 0);
        assert(t[0] == rest[0][0]);
        assert(r.drop_first() =~= t);
        assert(skip_ws(r) == skip_ws(t));
        lemma_after_spaced_words(rest, x);
    } else {
        assert(rest.len() == 0);
        assert(spaced_words(rest) =~= Seq::<char>::empty());
        assert(r =~= seq![' '] + x);
    }
}

/// `k` reads as the keywords `ws`, in any letter case, after and between any
/// runs of whitespace, and ends in whitespace.
pub open spec fn is_keyword_prefix(k: Seq<char>, ws: Seq<Seq<char>>) -> bool {
    match after_words(skip_ws(k), ws) {
        Some(r) => r.len() > 0 && all_ws(r),
        None => false,
    }
}

proof fn lemma_capture_verbatim(k: Seq<char>, x: Seq<char>, ws: Seq<Seq<char>>)
    requires
        ws.len() > 0,
        words_nonempty(ws),
        is_keyword_prefix(k, ws),
        x.len() > 0,
        !is_ws(x[0]),
        !is_ws(x.last()),
    ensures
        capture_after_words(k + x, ws) == Some(x),
{
    let t = skip_ws(k);
    assert(ws[0].len() > 0);
    assert(t.len() > 0);
    lemma_skip_ws_append(k, x);
    lemma_after_words_append(t, x, ws);
    let r = after_words(t, ws)->0;
    assert((r + x)[0] == r[0]);
    lemma_skip_ws_append(r, x);
    assert(skip_ws(x) == x);
    assert(trim_end_ws(x) == x);
}

/// The keywords of `MASKED WITH VALUE`.
pub open spec fn value_words() -> Seq<Seq<char>> {
    seq![word_masked(), word_with(), word_value()]
}

/// The keywords of `MASKED WITH FUNCTION`.
pub open spec fn function_words() -> Seq<Seq<char>> {
    seq![word_masked(), word_with(), word_function()]
}

/// A masking value or function is captured verbatim, whatever it holds
/// (parentheses, quotes, line breaks), after the keywords in any letter case
/// and with any runs of whitespace, as long as it neither begins nor ends
/// with whitespace. `MASKED WITH VALUE ` and `MASKED WITH FUNCTION ` are such
/// keyword prefixes.
pub proof fn lemma_capture_is_verbatim(k: Seq<char>, x: Seq<char>)
    requires
        x.len() > 0,
        !is_ws(x[0]),
        !is_ws(x.last()),
    ensures
        is_keyword_prefix(k, value_words()) ==> spec_value(k + x) == Some(x),
        is_keyword_prefix(k, function_words()) ==> spec_function(k + x) == Some(x),
        is_keyword_prefix(spaced_words(value_words()), value_words()),
        is_keyword_prefix(spaced_words(function_words()), function_words()),
{
    lemma_grammar_words_nonempty();
    assert(value_words() == seq![word_masked(), word_with(), word_value()]);
    if is_keyword_prefix(k, value_words()) {
        lemma_capture_verbatim(k, x, value_words());
    }
    if is_keyword_prefix(k, function_words()) {
        lemma_capture_verbatim(k, x, function_words());
    }
    let v = value_words();
    let f = function_words();
    assert(upper_words(v));
    assert(upper_words(f));
    lemma_after_spaced_words(v, Seq::<char>::empty());
    lemma_after_spaced_words(f, Seq::<char>::empty());
    assert(spaced_words(v) + Seq::<char>::empty() =~= spaced_words(v));
    assert(spaced_words(f) + Seq::<char>::empty() =~= spaced_words(f));
    assert(seq![' '] + Seq::<char>::empty() =~= seq![' ']);
    assert(v[0].len() > 0 && f[0].len() > 0);
    assert(skip_ws(spaced_words(v)) == spaced_words(v)) by {
        assert(spaced_words(v)[0] == v[0][0]);
    }
    assert(skip_ws(spaced_words(f)) == spaced_words(f)) by {
        assert(spaced_words(f)[0] == f[0][0]);
    }
}

/// A label is at most one of `MASKED WITH FUNCTION`, `MASKED WITH VALUE` and
/// `NOT MASKED`.
pub proof fn lemma_directives_exclusive(s: Seq<char>)
    ensures
        !(spec_function(s) is Some && spec_value(s) is Some),
        !(spec_function(s) is Some && spec_is_not_masked(s)),
        !(spec_value(s) is Some && spec_is_not_masked(s)),
{
    let t = skip_ws(s);
    let mw = seq![word_masked(), word_with()];
    let f = seq![word_masked(), word_with(), word_function()];
    let v = seq![word_masked(), word_with(), word_value()];
    let n = seq![word_not(), word_masked()];
    if spec_is_not_masked(s) {
        assert(starts_with_word(t, word_not()));
        if starts_with_word(t, word_masked()) {
            assert(folds_to(t[0], 'N') && folds_to(t[0], 'M'));
        }
        assert(after_words(t, f) is None);
        assert(after_words(t, v) is None);
    }
    if after_words(t, f) is Some && after_words(t, v) is Some {
        assert(f.drop_first() =~= seq![word_with(), word_function()]);
        assert(v.drop_first() =~= seq![word_with(), word_value()]);
        let r = skip_ws(t.skip(6));
        assert(after_words(r, seq![word_with(), word_function()]) is Some);
        assert(after_words(r, seq![word_with(), word_value()]) is Some);
        assert(seq![word_with(), word_function()].drop_first() =~= seq![word_function()]);
        assert(seq![word_with(), word_value()].drop_first() =~= seq![word_value()]);
        let q = skip_ws(r.skip(4));
        assert(after_words(q, seq![word_function()]) is Some);
        assert(after_words(q, seq![word_value()]) is Some);
        assert(starts_with_word(q, word_function()));
        assert(starts_with_word(q, word_value()));
        assert(folds_to(q[0], 'F') && folds_to(q[0], 'V'));
    }
}


} // verus!
