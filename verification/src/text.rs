//! Character-level text primitives with their meaning stated over `Seq<char>`.
//!
//! Every routine here works on sequences of Unicode scalar values; the spec
//! functions describe what `str`'s own methods of the same name compute.
use vstd::prelude::*;

verus! {

// ─── Unicode white space ───────────────────────────────────────────────

/// The Unicode `White_Space` property, the set `char::is_whitespace` tests.
pub open spec fn is_ws(c: char) -> bool {
    let u = c as u32;
    ||| (0x09 <= u && u <= 0x0D)
    ||| u == 0x20
    ||| u == 0x85
    ||| u == 0xA0
    ||| u == 0x1680
    ||| (0x2000 <= u && u <= 0x200A)
    ||| u == 0x2028
    ||| u == 0x2029
    ||| u == 0x202F
    ||| u == 0x205F
    ||| u == 0x3000
}

pub fn is_whitespace(c: char) -> (r: bool)
    ensures
        r == is_ws(c),
{
    let u = c as u32;
    (0x09 <= u && u <= 0x0D) || u == 0x20 || u == 0x85 || u == 0xA0 || u == 0x1680 || (0x2000
        <= u && u <= 0x200A) || u == 0x2028 || u == 0x2029 || u == 0x202F || u == 0x205F || u
        == 0x3000
}

/// First index at or after `i` that holds no white space (or the length).
pub open spec fn skip_ws(s: Seq<char>, i: int) -> int
    decreases s.len() - i,
{
    if 0 <= i < s.len() && is_ws(s[i]) {
        skip_ws(s, i + 1)
    } else {
        i
    }
}

/// First index at or after `i` that holds white space (or the length).
pub open spec fn skip_non_ws(s: Seq<char>, i: int) -> int
    decreases s.len() - i,
{
    if 0 <= i < s.len() && !is_ws(s[i]) {
        skip_non_ws(s, i + 1)
    } else {
        i
    }
}

/// End of `s.take(j)` once trailing white space is dropped.
pub open spec fn trim_ws_back(s: Seq<char>, j: int) -> int
    decreases j,
{
    if 0 < j <= s.len() && is_ws(s[j - 1]) {
        trim_ws_back(s, j - 1)
    } else {
        j
    }
}

pub proof fn lemma_skip_ws_bounds(s: Seq<char>, i: int)
    requires
        0 <= i <= s.len(),
    ensures
        i <= skip_ws(s, i) <= s.len(),
        forall|k: int| i <= k < skip_ws(s, i) ==> is_ws(#[trigger] s[k]),
        skip_ws(s, i) < s.len() ==> !is_ws(s[skip_ws(s, i)]),
    decreases s.len() - i,
{
    if i < s.len() && is_ws(s[i]) {
        lemma_skip_ws_bounds(s, i + 1);
    }
}

pub proof fn lemma_skip_non_ws_bounds(s: Seq<char>, i: int)
    requires
        0 <= i <= s.len(),
    ensures
        i <= skip_non_ws(s, i) <= s.len(),
        forall|k: int| i <= k < skip_non_ws(s, i) ==> !is_ws(#[trigger] s[k]),
        skip_non_ws(s, i) < s.len() ==> is_ws(s[skip_non_ws(s, i)]),
    decreases s.len() - i,
{
    if i < s.len() && !is_ws(s[i]) {
        lemma_skip_non_ws_bounds(s, i + 1);
    }
}

pub proof fn lemma_trim_ws_back_bounds(s: Seq<char>, j: int)
    requires
        0 <= j <= s.len(),
    ensures
        0 <= trim_ws_back(s, j) <= j,
        forall|k: int| trim_ws_back(s, j) <= k < j ==> is_ws(#[trigger] s[k]),
        trim_ws_back(s, j) > 0 ==> !is_ws(s[trim_ws_back(s, j) - 1]),
    decreases j,
{
    if 0 < j && is_ws(s[j - 1]) {
        lemma_trim_ws_back_bounds(s, j - 1);
    }
}

/// `str::trim_start`.
pub open spec fn trim_start(s: Seq<char>) -> Seq<char> {
    s.subrange(skip_ws(s, 0), s.len() as int)
}

/// `str::trim_end`.
pub open spec fn trim_end(s: Seq<char>) -> Seq<char> {
    s.subrange(0, trim_ws_back(s, s.len() as int))
}

/// `str::trim`.
pub open spec fn trim(s: Seq<char>) -> Seq<char> {
    trim_end(trim_start(s))
}

/// Trimming twice is trimming once.
pub proof fn lemma_trim_idempotent(s: Seq<char>)
    ensures
        trim(trim(s)) == trim(s),
{
    lemma_skip_ws_bounds(s, 0);
    let u = trim_start(s);
    lemma_trim_ws_back_bounds(u, u.len() as int);
    let t = trim(s);
    if t.len() > 0 {
        assert(t[0] == u[0]);
        assert(u[0] == s[skip_ws(s, 0)]);
        assert(t.last() == u[trim_ws_back(u, u.len() as int) - 1]);
    }
    assert(skip_ws(t, 0) == 0);
    assert(trim_start(t) =~= t);
    assert(trim_ws_back(t, t.len() as int) == t.len());
    assert(trim_end(t) =~= t);
}

/// Copies `v[a..b]`.
pub fn slice_of(v: &[char], a: usize, b: usize) -> (r: Vec<char>)
    requires
        a <= b <= v@.len(),
    ensures
        r@ == v@.subrange(a as int, b as int),
{
    let mut r: Vec<char> = Vec::new();
    let mut i = a;
    while i < b
        invariant
            a <= i <= b <= v@.len(),
            r@ == v@.subrange(a as int, i as int),
        decreases b - i,
    {
        r.push(v[i]);
        i = i + 1;
        assert(r@ =~= v@.subrange(a as int, i as int));
    }
    r
}

pub fn skip_ws_from(v: &[char], i: usize) -> (r: usize)
    requires
        i <= v@.len(),
    ensures
        r == skip_ws(v@, i as int),
        i <= r <= v@.len(),
{
    let mut k = i;
    while k < v.len() && is_whitespace(v[k])
        invariant
            i <= k <= v@.len(),
            skip_ws(v@, k as int) == skip_ws(v@, i as int),
        decreases v@.len() - k,
    {
        k = k + 1;
    }
    k
}

pub fn skip_non_ws_from(v: &[char], i: usize) -> (r: usize)
    requires
        i <= v@.len(),
    ensures
        r == skip_non_ws(v@, i as int),
        i <= r <= v@.len(),
{
    let mut k = i;
    while k < v.len() && !is_whitespace(v[k])
        invariant
            i <= k <= v@.len(),
            skip_non_ws(v@, k as int) == skip_non_ws(v@, i as int),
        decreases v@.len() - k,
    {
        k = k + 1;
    }
    k
}

pub fn trim_back_to(v: &[char], j: usize) -> (r: usize)
    requires
        j <= v@.len(),
    ensures
        r == trim_ws_back(v@, j as int),
        r <= j,
{
    let mut k = j;
    while k > 0 && is_whitespace(v[k - 1])
        invariant
            k <= j <= v@.len(),
            trim_ws_back(v@, k as int) == trim_ws_back(v@, j as int),
        decreases k,
    {
        k = k - 1;
    }
    k
}

/// `str::trim_start` on a character sequence.
pub fn trim_start_chars(v: &[char]) -> (r: Vec<char>)
    ensures
        r@ == trim_start(v@),
{
    let a = skip_ws_from(v, 0);
    slice_of(v, a, v.len())
}

/// `str::trim_end` on a character sequence.
pub fn trim_end_chars(v: &[char]) -> (r: Vec<char>)
    ensures
        r@ == trim_end(v@),
{
    let b = trim_back_to(v, v.len());
    slice_of(v, 0, b)
}

/// `str::trim` on a character sequence.
pub fn trim_chars(v: &[char]) -> (r: Vec<char>)
    ensures
        r@ == trim(v@),
{
    let t = trim_start_chars(v);
    trim_end_chars(&t)
}

// ─── Line splitting (`str::lines`) ─────────────────────────────────────

/// First index at or after `i` holding a line feed (or the length).
pub open spec fn next_nl(s: Seq<char>, i: int) -> int
    decreases s.len() - i,
{
    if 0 <= i < s.len() && s[i] != '\n' {
        next_nl(s, i + 1)
    } else {
        i
    }
}

pub proof fn lemma_next_nl_bounds(s: Seq<char>, i: int)
    requires
        0 <= i <= s.len(),
    ensures
        i <= next_nl(s, i) <= s.len(),
        next_nl(s, i) < s.len() ==> s[next_nl(s, i)] == '\n',
        forall|k: int| i <= k < next_nl(s, i) ==> #[trigger] s[k] != '\n',
    decreases s.len() - i,
{
    if i < s.len() && s[i] != '\n' {
        lemma_next_nl_bounds(s, i + 1);
    }
}

/// Drops one trailing carriage return.
pub open spec fn strip_cr(t: Seq<char>) -> Seq<char> {
    if t.len() > 0 && t.last() == '\r' {
        t.drop_last()
    } else {
        t
    }
}

/// The lines of `s[i..]` as `str::lines` yields them: split at `\n`, a `\r`
/// just before a `\n` dropped, no final empty line after a final `\n`.
pub open spec fn lines_from(s: Seq<char>, i: int) -> Seq<Seq<char>>
    decreases s.len() - i,
{
    if i < 0 || i >= s.len() {
        seq![]
    } else {
        let j = next_nl(s, i);
        if i <= j < s.len() {
            seq![strip_cr(s.subrange(i, j))] + lines_from(s, j + 1)
        } else {
            seq![s.subrange(i, s.len() as int)]
        }
    }
}

/// `str::lines`.
pub open spec fn lines(s: Seq<char>) -> Seq<Seq<char>> {
    lines_from(s, 0)
}

pub fn next_nl_from(v: &[char], i: usize) -> (r: usize)
    requires
        i <= v@.len(),
    ensures
        r == next_nl(v@, i as int),
        i <= r <= v@.len(),
{
    let mut k = i;
    while k < v.len() && v[k] != '\n'
        invariant
            i <= k <= v@.len(),
            next_nl(v@, k as int) == next_nl(v@, i as int),
        decreases v@.len() - k,
    {
        k = k + 1;
    }
    k
}

/// Views of a vector of character vectors.
pub open spec fn views(v: Seq<Vec<char>>) -> Seq<Seq<char>> {
    v.map_values(|x: Vec<char>| x@)
}

/// Views of a vector of strings.
pub open spec fn str_views(v: Seq<String>) -> Seq<Seq<char>> {
    v.map_values(|x: String| x@)
}

pub proof fn lemma_str_views_push(s: Seq<String>, x: String)
    ensures
        str_views(s.push(x)) == str_views(s).push(x@),
{
    assert(str_views(s.push(x)) =~= str_views(s).push(x@));
}

pub proof fn lemma_views_push(s: Seq<Vec<char>>, x: Vec<char>)
    ensures
        views(s.push(x)) == views(s).push(x@),
{
    assert(views(s.push(x)) =~= views(s).push(x@));
}

/// `str::lines` on a character sequence.
pub fn lines_chars(v: &[char]) -> (r: Vec<Vec<char>>)
    ensures
        views(r@) == lines(v@),
{
    let mut r: Vec<Vec<char>> = Vec::new();
    let mut i: usize = 0;
    while i < v.len()
        invariant
            i <= v@.len(),
            lines(v@) == views(r@) + lines_from(v@, i as int),
        decreases v@.len() - i,
    {
        let j = next_nl_from(v, i);
        let ghost old_r = views(r@);
        if j < v.len() {
            let mut piece = slice_of(v, i, j);
            if piece.len() > 0 && piece[piece.len() - 1] == '\r' {
                piece.pop();
            }
            assert(piece@ == strip_cr(v@.subrange(i as int, j as int)));
            r.push(piece);
            assert(views(r@) =~= old_r + seq![piece@]);
            i = j + 1;
        } else {
            let piece = slice_of(v, i, v.len());
            r.push(piece);
            assert(views(r@) =~= old_r + seq![piece@]);
            assert(lines_from(v@, j as int + 1) == Seq::<Seq<char>>::empty());
            i = v.len();
        }
    }
    assert(views(r@) + lines_from(v@, i as int) =~= views(r@));
    r
}

/// `str::lines`, each line as a `String`.
pub fn lines_strings(s: &str) -> (r: Vec<String>)
    ensures
        str_views(r@) == lines(s@),
{
    let v = chars_of(s);
    let ls = lines_chars(&v);
    strings_of(&ls)
}

/// Converts each character vector to a `String`.
pub fn strings_of(ls: &Vec<Vec<char>>) -> (r: Vec<String>)
    ensures
        str_views(r@) == views(ls@),
{
    let mut r: Vec<String> = Vec::new();
    let mut i: usize = 0;
    while i < ls.len()
        invariant
            i <= ls@.len(),
            r@.len() == i,
            forall|j: int| 0 <= j < i ==> (#[trigger] r@[j])@ == ls@[j]@,
        decreases ls@.len() - i,
    {
        let line = string_of(ls[i].as_slice());
        r.push(line);
        i = i + 1;
    }
    assert(str_views(r@) =~= views(ls@));
    r
}

// ─── White-space tokens (`str::split_whitespace`) ──────────────────────

pub open spec fn ws_tokens_from(s: Seq<char>, i: int) -> Seq<Seq<char>>
    decreases s.len() - i,
{
    let a = skip_ws(s, i);
    if i < 0 || i > s.len() || a >= s.len() || a < i {
        seq![]
    } else {
        let b = skip_non_ws(s, a);
        if b <= a || b > s.len() {
            seq![]
        } else {
            seq![s.subrange(a, b)] + ws_tokens_from(s, b)
        }
    }
}

/// `str::split_whitespace`.
pub open spec fn ws_tokens(s: Seq<char>) -> Seq<Seq<char>> {
    ws_tokens_from(s, 0)
}

/// `str::split_whitespace` on a character sequence.
pub fn split_ws_chars(v: &[char]) -> (r: Vec<Vec<char>>)
    ensures
        views(r@) == ws_tokens(v@),
{
    let mut r: Vec<Vec<char>> = Vec::new();
    let mut i: usize = 0;
    loop
        invariant
            i <= v@.len(),
            ws_tokens(v@) == views(r@) + ws_tokens_from(v@, i as int),
        decreases v@.len() - i,
    {
        let a = skip_ws_from(v, i);
        if a >= v.len() {
            assert(ws_tokens_from(v@, i as int) == Seq::<Seq<char>>::empty());
            assert(views(r@) + ws_tokens_from(v@, i as int) =~= views(r@));
            return r;
        }
        proof {
            lemma_skip_ws_bounds(v@, i as int);
            lemma_skip_ws_bounds(v@, a as int);
        }
        let b = skip_non_ws_from(v, a);
        proof {
            assert(skip_non_ws(v@, a as int) == skip_non_ws(v@, a as int + 1));
            lemma_skip_non_ws_bounds(v@, a as int + 1);
        }
        assert(b > a);
        let ghost old_r = views(r@);
        let tok = slice_of(v, a, b);
        r.push(tok);
        assert(views(r@) =~= old_r + seq![tok@]);
        i = b;
    }
}

// ─── Prefixes and searching ────────────────────────────────────────────

/// `str::starts_with` for a string pattern.
pub open spec fn starts_with(s: Seq<char>, p: Seq<char>) -> bool {
    p.len() <= s.len() && s.subrange(0, p.len() as int) == p
}

/// Whether `p` occurs in `s` starting at `i`.
pub open spec fn occurs_at(s: Seq<char>, p: Seq<char>, i: int) -> bool {
    0 <= i && i + p.len() <= s.len() && s.subrange(i, i + p.len()) == p
}

/// First position at or after `i` where `p` occurs (`str::find` from `i`).
pub open spec fn find_from(s: Seq<char>, p: Seq<char>, i: int) -> Option<int>
    decreases s.len() + 1 - i,
{
    if i < 0 || i + p.len() > s.len() {
        None
    } else if occurs_at(s, p, i) {
        Some(i)
    } else {
        find_from(s, p, i + 1)
    }
}

/// `str::find`.
pub open spec fn find(s: Seq<char>, p: Seq<char>) -> Option<int> {
    find_from(s, p, 0)
}

pub proof fn lemma_find_from(s: Seq<char>, p: Seq<char>, i: int)
    requires
        0 <= i,
    ensures
        find_from(s, p, i) matches Some(k) ==> i <= k && occurs_at(s, p, k) && forall|j: int|
            i <= j < k ==> !occurs_at(s, p, j),
        find_from(s, p, i) is None ==> forall|j: int| i <= j ==> !occurs_at(s, p, j),
    decreases s.len() + 1 - i,
{
    if i + p.len() > s.len() {
    } else if occurs_at(s, p, i) {
    } else {
        lemma_find_from(s, p, i + 1);
    }
}

pub fn starts_with_chars(v: &[char], p: &[char]) -> (r: bool)
    ensures
        r == starts_with(v@, p@),
{
    occurs_at_chars(v, p, 0)
}

pub fn occurs_at_chars(v: &[char], p: &[char], i: usize) -> (r: bool)
    ensures
        r == occurs_at(v@, p@, i as int),
{
    if i > v.len() || p.len() > v.len() - i {
        return false;
    }
    let n = v.len();
    let mut k: usize = 0;
    while k < p.len()
        invariant
            k <= p@.len(),
            n == v@.len(),
            i + p@.len() <= n,
            forall|j: int| 0 <= j < k ==> v@[i + j] == p@[j],
        decreases p@.len() - k,
    {
        if v[i + k] != p[k] {
            assert(v@.subrange(i as int, i + p@.len())[k as int] != p@[k as int]);
            return false;
        }
        k = k + 1;
    }
    assert(v@.subrange(i as int, i + p@.len()) =~= p@);
    true
}

/// `str::find` from position `i` on character sequences.
pub fn find_chars_from(v: &[char], p: &[char], i: usize) -> (r: Option<usize>)
    requires
        i <= v@.len(),
    ensures
        r matches Some(k) ==> find_from(v@, p@, i as int) == Some(k as int),
        r is None ==> find_from(v@, p@, i as int) is None,
{
    let mut k = i;
    while k <= v.len()
        invariant
            i <= k <= v@.len() + 1,
            find_from(v@, p@, k as int) == find_from(v@, p@, i as int),
        decreases v@.len() + 1 - k,
    {
        if p.len() > v.len() - k {
            return None;
        }
        if occurs_at_chars(v, p, k) {
            return Some(k);
        }
        if k == v.len() {
            assert(v@.subrange(k as int, k as int) =~= p@);
            return None;
        }
        k = k + 1;
    }
    None
}

/// `str::find` on character sequences.
pub fn find_chars(v: &[char], p: &[char]) -> (r: Option<usize>)
    ensures
        r matches Some(k) ==> find(v@, p@) == Some(k as int),
        r is None ==> find(v@, p@) is None,
{
    find_chars_from(v, p, 0)
}

/// Whether two character sequences are equal.
pub fn chars_eq(a: &[char], b: &[char]) -> (r: bool)
    ensures
        r == (a@ == b@),
{
    if a.len() != b.len() {
        return false;
    }
    let mut k: usize = 0;
    while k < a.len()
        invariant
            k <= a@.len(),
            a@.len() == b@.len(),
            forall|j: int| 0 <= j < k ==> a@[j] == b@[j],
        decreases a@.len() - k,
    {
        if a[k] != b[k] {
            return false;
        }
        k = k + 1;
    }
    assert(a@ =~= b@);
    true
}

// ─── Conversions ───────────────────────────────────────────────────────

/// The characters of `s`, in order.
pub fn chars_of(s: &str) -> (v: Vec<char>)
    ensures
        v@ == s@,
{
    let mut v: Vec<char> = Vec::new();
    for c in it: s.chars()
        invariant
            v@ == it.seq().take(it.index() as int),
            it.seq() == s@,
    {
        v.push(c);
    }
    v
}

/// Builds a `String` from a sequence of characters (`Iterator::collect`).
#[verifier::external_body]
pub(crate) fn string_of(v: &[char]) -> (s: String)
    ensures
        s@ == v@,
{
    v.iter().collect()
}

/// Appends `t` to `v`.
pub fn push_all(v: &mut Vec<char>, t: &[char])
    ensures
        final(v)@ == old(v)@ + t@,
{
    let ghost v0 = v@;
    let mut k: usize = 0;
    while k < t.len()
        invariant
            k <= t@.len(),
            v@ == v0 + t@.take(k as int),
        decreases t@.len() - k,
    {
        v.push(t[k]);
        k = k + 1;
        assert(v@ =~= v0 + t@.take(k as int));
    }
    assert(t@.take(k as int) =~= t@);
}

/// Appends the characters of `t` to `v`.
pub fn push_str(v: &mut Vec<char>, t: &str)
    ensures
        final(v)@ == old(v)@ + t@,
{
    let c = chars_of(t);
    push_all(v, &c);
}

// ─── Case mapping ──────────────────────────────────────────────────────

/// What `str::to_lowercase` returns for a string: its Unicode lowercase
/// mapping, which depends on nothing but the string.
pub uninterp spec fn lowercase(s: Seq<char>) -> Seq<char>;

/// `str::to_lowercase`. Its result is named, not described: the contract
/// claims only that it is `lowercase` of the argument.
#[verifier::external_body]
pub(crate) fn to_lowercase(s: &str) -> (r: String)
    ensures
        r@ == lowercase(s@),
{
    s.to_lowercase()
}

/// Whether `v` holds exactly the characters of `lit`.
pub fn eq_lit(v: &[char], lit: &str) -> (r: bool)
    ensures
        r == (v@ == lit@),
{
    let l = chars_of(lit);
    chars_eq(v, &l)
}

// ─── Joining ───────────────────────────────────────────────────────────

/// Lines joined by `sep` (`[&str]::join`).
pub open spec fn join_lines(ls: Seq<Seq<char>>, sep: Seq<char>) -> Seq<char>
    decreases ls.len(),
{
    if ls.len() == 0 {
        seq![]
    } else if ls.len() == 1 {
        ls[0]
    } else {
        join_lines(ls.drop_last(), sep) + sep + ls.last()
    }
}

/// Lines joined by "\n".
pub fn join_strings(ls: &Vec<String>) -> (r: Vec<char>)
    ensures
        r@ == join_lines(str_views(ls@), "\n"@),
{
    let ghost lv = str_views(ls@);
    let nl = chars_of("\n");
    let mut r: Vec<char> = Vec::new();
    let mut i: usize = 0;
    while i < ls.len()
        invariant
            i <= ls@.len(),
            lv == str_views(ls@),
            nl@ == "\n"@,
            r@ == join_lines(lv.take(i as int), "\n"@),
        decreases ls@.len() - i,
    {
        assert(lv.take(i + 1).drop_last() =~= lv.take(i as int));
        assert(lv[i as int] == ls@[i as int]@);
        if i > 0 {
            push_all(&mut r, &nl);
        } else {
            assert(lv.take(1)[0] == lv[0]);
        }
        let c = chars_of(ls[i].as_str());
        push_all(&mut r, &c);
        i = i + 1;
    }
    assert(lv.take(i as int) =~= lv);
    r
}

/// Lines joined by `sep`.
pub fn join_chars(ls: &Vec<Vec<char>>, sep: &[char]) -> (r: Vec<char>)
    ensures
        r@ == join_lines(views(ls@), sep@),
{
    let ghost lv = views(ls@);
    let mut r: Vec<char> = Vec::new();
    let mut i: usize = 0;
    while i < ls.len()
        invariant
            i <= ls@.len(),
            lv == views(ls@),
            r@ == join_lines(lv.take(i as int), sep@),
        decreases ls@.len() - i,
    {
        assert(lv.take(i + 1).drop_last() =~= lv.take(i as int));
        assert(lv[i as int] == ls@[i as int]@);
        if i > 0 {
            push_all(&mut r, sep);
        } else {
            assert(lv.take(1)[0] == lv[0]);
        }
        push_all(&mut r, &ls[i]);
        i = i + 1;
    }
    assert(lv.take(i as int) =~= lv);
    r
}

} // verus!
