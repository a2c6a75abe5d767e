//! Decoding a fetched page to text: the charset of the Content-Type header
//! first, then a byte order mark, then strict UTF-8, then common legacy
//! encodings of Chinese, Japanese and Korean pages, and GBK last.
use vstd::prelude::*;
use vstd::utf8::{valid_utf8, decode_utf8};
use crate::text::{chars_of, push_all, string_of, trim, trim_chars};
use crate::search::{strip_start, strip_end};

verus! {

// ─── encoding_rs ───────────────────────────────────────────────────────

/// What decoding `bytes` gives with the encoding that `label` names
/// (`Encoding::for_label`, then `decode`), or nothing for an unknown
/// label.
pub uninterp spec fn label_decoded(label: Seq<char>, bytes: Seq<u8>) -> Option<Seq<char>>;

/// What decoding `bytes` gives with the encoding of their byte order mark.
pub uninterp spec fn bom_decoded(bytes: Seq<u8>) -> Seq<char>;

/// What decoding `bytes` gives with the encoding that `label` names, when
/// the label is known, is not the replacement encoding, and decoding
/// meets no malformed sequence.
pub uninterp spec fn legacy_decoded(label: Seq<char>, bytes: Seq<u8>) -> Option<Seq<char>>;

/// Decodes with the encoding named by `label` (`Encoding::for_label` and
/// `Encoding::decode`); the text is named, not described.
#[verifier::external_body]
fn decode_with_label(label: &str, bytes: &[u8]) -> (r: Option<String>)
    ensures
        match r {
            Some(s) => label_decoded(label@, bytes@) == Some(s@),
            None => label_decoded(label@, bytes@) is None,
        },
{
    match encoding_rs::Encoding::for_label(label.as_bytes()) {
        Some(enc) => Some(enc.decode(bytes).0.into_owned()),
        None => None,
    }
}

/// A byte order mark: UTF-8 (EF BB BF), UTF-16LE (FF FE) or UTF-16BE (FE FF).
pub open spec fn has_bom(b: Seq<u8>) -> bool {
    (b.len() >= 3 && b[0] == 0xEF && b[1] == 0xBB && b[2] == 0xBF) || (b.len() >= 2 && b[0] == 0xFF
        && b[1] == 0xFE) || (b.len() >= 2 && b[0] == 0xFE && b[1] == 0xFF)
}

/// Decodes by the byte order mark (`Encoding::for_bom`, which recognises
/// exactly the three marks of `has_bom`, then `decode`).
#[verifier::external_body]
fn decode_by_bom(bytes: &[u8]) -> (r: Option<String>)
    ensures
        r is Some <==> has_bom(bytes@),
        r matches Some(s) ==> s@ == bom_decoded(bytes@),
{
    match encoding_rs::Encoding::for_bom(bytes) {
        Some((enc, _)) => Some(enc.decode(bytes).0.into_owned()),
        None => None,
    }
}

/// Decodes with a legacy encoding, refusing malformed input
/// (`Encoding::for_label_no_replacement`, then `decode` and its error
/// flag).
#[verifier::external_body]
fn decode_legacy(label: &str, bytes: &[u8]) -> (r: Option<String>)
    ensures
        match r {
            Some(s) => legacy_decoded(label@, bytes@) == Some(s@),
            None => legacy_decoded(label@, bytes@) is None,
        },
{
    match encoding_rs::Encoding::for_label_no_replacement(label.as_bytes()) {
        Some(enc) => {
            let (text, _, had_errors) = enc.decode(bytes);
            if had_errors { None } else { Some(text.into_owned()) }
        },
        None => None,
    }
}

/// `std::str::from_utf8`: the text when the bytes are valid UTF-8.
#[verifier::external_body]
fn decode_utf8_strict(bytes: &[u8]) -> (r: Option<String>)
    ensures
        r is Some <==> valid_utf8(bytes@),
        r matches Some(s) ==> s@ == decode_utf8(bytes@),
{
    match std::str::from_utf8(bytes) {
        Ok(s) => Some(s.to_string()),
        Err(_) => None,
    }
}

// ─── The charset of a Content-Type header ──────────────────────────────

/// `s` split at each `c` (`str::split`).
pub open spec fn split_at_char(s: Seq<char>, c: char) -> Seq<Seq<char>>
    decreases s.len(),
{
    if s.len() == 0 {
        seq![seq![]]
    } else {
        let prev = split_at_char(s.drop_last(), c);
        if s.last() == c {
            prev.push(seq![])
        } else {
            prev.update(prev.len() - 1, prev.last().push(s.last()))
        }
    }
}

pub proof fn lemma_split_nonempty(s: Seq<char>, c: char)
    ensures
        split_at_char(s, c).len() > 0,
    decreases s.len(),
{
    if s.len() > 0 {
        lemma_split_nonempty(s.drop_last(), c);
    }
}

/// ASCII letters lowercased.
pub open spec fn ascii_lower(c: char) -> char {
    if 'A' <= c && c <= 'Z' {
        ((c as u32) + 32) as char
    } else {
        c
    }
}

/// `eq_ignore_ascii_case`.
pub open spec fn ascii_ci_eq(a: Seq<char>, b: Seq<char>) -> bool {
    a.len() == b.len() && forall|i: int| 0 <= i < a.len() ==> ascii_lower(a[i]) == ascii_lower(b[i])
}

/// The value of a "charset=..." parameter, trimmed and without quotes.
pub open spec fn charset_param(part: Seq<char>) -> Option<Seq<char>> {
    match crate::text::find(part, "="@) {
        Some(j) => if ascii_ci_eq(trim(part.take(j)), "charset"@) {
            Some(strip_end(strip_start(strip_end(strip_start(trim(part.skip(j + 1)), '"'), '"'), '\''), '\''))
        } else {
            None
        },
        None => None,
    }
}

/// The first charset parameter after the media type.
pub open spec fn first_charset(parts: Seq<Seq<char>>, i: int) -> Option<Seq<char>>
    decreases parts.len() - i,
{
    if i < 0 || i >= parts.len() {
        None
    } else {
        match charset_param(parts[i]) {
            Some(cs) => Some(cs),
            None => first_charset(parts, i + 1),
        }
    }
}

/// The charset a Content-Type header declares.
pub open spec fn header_charset(ct: Seq<char>) -> Option<Seq<char>> {
    first_charset(split_at_char(ct, ';'), 1)
}

fn split_chars(s: &[char], c: char) -> (r: Vec<Vec<char>>)
    ensures
        crate::text::views(r@) == split_at_char(s@, c),
{
    let mut parts: Vec<Vec<char>> = Vec::new();
    parts.push(Vec::new());
    let mut i: usize = 0;
    assert(crate::text::views(parts@) =~= split_at_char(s@.take(0), c));
    while i < s.len()
        invariant
            i <= s@.len(),
            parts@.len() > 0,
            crate::text::views(parts@) == split_at_char(s@.take(i as int), c),
        decreases s@.len() - i,
    {
        assert(s@.take(i + 1).drop_last() =~= s@.take(i as int));
        let ghost before = crate::text::views(parts@);
        if s[i] == c {
            parts.push(Vec::new());
            assert(crate::text::views(parts@) =~= before.push(seq![]));
        } else {
            let last = parts.len() - 1;
            let mut p = parts.remove(last);
            p.push(s[i]);
            parts.push(p);
            assert(crate::text::views(parts@) =~= before.update(before.len() - 1, before.last().push(s@[i as int])));
        }
        i = i + 1;
    }
    assert(s@.take(i as int) =~= s@);
    parts
}

fn lower_ascii(c: char) -> (r: char)
    ensures
        r == ascii_lower(c),
{
    if 'A' <= c && c <= 'Z' {
        (((c as u32) + 32) as u8) as char
    } else {
        c
    }
}

fn ci_eq_chars(a: &[char], b: &[char]) -> (r: bool)
    ensures
        r == ascii_ci_eq(a@, b@),
{
    if a.len() != b.len() {
        return false;
    }
    let mut i: usize = 0;
    while i < a.len()
        invariant
            i <= a@.len(),
            a@.len() == b@.len(),
            forall|j: int| 0 <= j < i ==> ascii_lower(a@[j]) == ascii_lower(b@[j]),
        decreases a@.len() - i,
    {
        if lower_ascii(a[i]) != lower_ascii(b[i]) {
            return false;
        }
        i = i + 1;
    }
    true
}

fn strip_both(s: &[char], c: char) -> (r: Vec<char>)
    ensures
        r@ == strip_end(strip_start(s@, c), c),
{
    let mut k: usize = 0;
    assert(s@.skip(0) =~= s@);
    while k < s.len() && s[k] == c
        invariant
            k <= s@.len(),
            strip_start(s@, c) == strip_start(s@.skip(k as int), c),
        decreases s@.len() - k,
    {
        assert(s@.skip(k as int).drop_first() =~= s@.skip(k + 1));
        k = k + 1;
    }
    let mid = crate::text::slice_of(s, k, s.len());
    assert(mid@ =~= s@.skip(k as int));
    let mut n = mid.len();
    assert(mid@.take(n as int) =~= mid@);
    while n > 0 && mid[n - 1] == c
        invariant
            n <= mid@.len(),
            strip_end(mid@, c) == strip_end(mid@.take(n as int), c),
        decreases n,
    {
        assert(mid@.take(n as int).drop_last() =~= mid@.take(n - 1));
        n = n - 1;
    }
    let r = crate::text::slice_of(&mid, 0, n);
    assert(r@ =~= mid@.take(n as int));
    r
}

/// The charset declared by a Content-Type header.
pub fn content_type_charset(ct: &str) -> (r: Option<String>)
    ensures
        match r {
            Some(s) => header_charset(ct@) == Some(s@),
            None => header_charset(ct@) is None,
        },
{
    let c = chars_of(ct);
    let parts = split_chars(&c, ';');
    let ghost pv = crate::text::views(parts@);
    let eq = chars_of("=");
    let key = chars_of("charset");
    let mut i: usize = 1;
    while i < parts.len()
        invariant
            1 <= i,
            pv == crate::text::views(parts@),
            pv == split_at_char(c@, ';'),
            c@ == ct@,
            eq@ == "="@,
            key@ == "charset"@,
            first_charset(pv, 1) == first_charset(pv, i as int),
        decreases parts@.len() - i,
    {
        let part = &parts[i];
        match crate::text::find_chars(part, &eq) {
            Some(j) => {
                proof {
                    crate::text::lemma_find_from(part@, eq@, 0);
                    reveal_strlit("=");
                }
                let before = crate::text::slice_of(part, 0, j);
                let name = trim_chars(&before);
                assert(before@ =~= part@.take(j as int));
                if ci_eq_chars(&name, &key) {
                    let plen = part.len();
                    let after = crate::text::slice_of(part, j + 1, plen);
                    assert(after@ =~= part@.skip(j + 1));
                    let v = trim_chars(&after);
                    let v1 = strip_both(&v, '"');
                    let v2 = strip_both(&v1, '\'');
                    return Some(string_of(&v2));
                }
            },
            None => {},
        }
        i = i + 1;
    }
    None
}

// ─── Decoding ──────────────────────────────────────────────────────────

/// Legacy encodings tried, in order.
pub open spec fn legacy_labels() -> Seq<Seq<char>> {
    seq!["gbk"@, "gb2312"@, "gb18030"@, "shift_jis"@, "euc-jp"@, "euc-kr"@, "big5"@]
}

/// The first legacy encoding (from the `i`-th) that decodes the bytes
/// without error.
pub open spec fn first_legacy(bytes: Seq<u8>, i: int) -> Option<Seq<char>>
    decreases legacy_labels().len() - i,
{
    if i < 0 || i >= legacy_labels().len() {
        None
    } else {
        match legacy_decoded(legacy_labels()[i], bytes) {
            Some(t) => Some(t),
            None => first_legacy(bytes, i + 1),
        }
    }
}

/// The text of a page, by the order of attempts described above.
pub open spec fn decoded_page(bytes: Seq<u8>, ct: Seq<char>) -> Result<Seq<char>, Seq<char>> {
    let declared = match header_charset(ct) {
        Some(cs) => label_decoded(cs, bytes),
        None => None,
    };
    match declared {
        Some(t) => Ok(t),
        None => if has_bom(bytes) {
            Ok(bom_decoded(bytes))
        } else if valid_utf8(bytes) {
            Ok(decode_utf8(bytes))
        } else {
            match first_legacy(bytes, 0) {
                Some(t) => Ok(t),
                None => match label_decoded("gbk"@, bytes) {
                    Some(t) => Ok(t),
                    None => Err("无法检测页面编码，请手动指定 charset"@),
                },
            }
        },
    }
}

fn legacy_list() -> (r: Vec<&'static str>)
    ensures
        r@.map_values(|s: &str| s@) == legacy_labels(),
{
    let v = vec!["gbk", "gb2312", "gb18030", "shift_jis", "euc-jp", "euc-kr", "big5"];
    assert(v@.map_values(|s: &str| s@) =~= legacy_labels());
    v
}

/// Decodes a fetched page.
pub fn decode_html(bytes: &[u8], content_type: &str) -> (r: Result<String, String>)
    ensures
        match r {
            Ok(s) => decoded_page(bytes@, content_type@) == Ok::<Seq<char>, Seq<char>>(s@),
            Err(e) => decoded_page(bytes@, content_type@) == Err::<Seq<char>, Seq<char>>(e@),
        },
{
    match content_type_charset(content_type) {
        Some(cs) => {
            match decode_with_label(cs.as_str(), bytes) {
                Some(t) => return Ok(t),
                None => {},
            }
        },
        None => {},
    }
    match decode_by_bom(bytes) {
        Some(t) => return Ok(t),
        None => {},
    }
    match decode_utf8_strict(bytes) {
        Some(t) => return Ok(t),
        None => {},
    }
    let ghost declared = match header_charset(content_type@) {
        Some(cs) => label_decoded(cs, bytes@),
        None => None,
    };
    assert(declared is None);
    let labels = legacy_list();
    let mut i: usize = 0;
    while i < labels.len()
        invariant
            i <= labels@.len(),
            labels@.map_values(|s: &str| s@) == legacy_labels(),
            first_legacy(bytes@, 0) == first_legacy(bytes@, i as int),
            declared == (match header_charset(content_type@) {
                Some(cs) => label_decoded(cs, bytes@),
                None => None,
            }),
            declared is None,
            !has_bom(bytes@),
            !valid_utf8(bytes@),
        decreases labels@.len() - i,
    {
        assert(labels@[i as int]@ == legacy_labels()[i as int]);
        match decode_legacy(labels[i], bytes) {
            Some(t) => return Ok(t),
            None => {},
        }
        i = i + 1;
    }
    match decode_with_label("gbk", bytes) {
        Some(t) => Ok(t),
        None => Err(String::from_str("无法检测页面编码，请手动指定 charset")),
    }
}

/// The text of the bytes in the charset the header declares, if it
/// declares one that encoding_rs knows.
pub open spec fn declared_text(bytes: Seq<u8>, ct: Seq<char>) -> Option<Seq<char>> {
    match header_charset(ct) {
        Some(cs) => label_decoded(cs, bytes),
        None => None,
    }
}

/// The declared charset comes first: when the Content-Type header names a
/// charset that encoding_rs knows, the page is its bytes decoded with it,
/// whatever they hold. Only when there is none is a byte order mark, and
/// after that strict UTF-8, what decides.
pub proof fn law_declared_charset_first(bytes: Seq<u8>, ct: Seq<char>)
    ensures
        forall|cs: Seq<char>| header_charset(ct) == Some(cs) && (#[trigger] label_decoded(cs, bytes)) is Some
            ==> decoded_page(bytes, ct) == Ok::<Seq<char>, Seq<char>>(label_decoded(cs, bytes).unwrap()),
        declared_text(bytes, ct) is None && has_bom(bytes)
            ==> decoded_page(bytes, ct) == Ok::<Seq<char>, Seq<char>>(bom_decoded(bytes)),
        declared_text(bytes, ct) is None && !has_bom(bytes) && valid_utf8(bytes)
            ==> decoded_page(bytes, ct) == Ok::<Seq<char>, Seq<char>>(decode_utf8(bytes)),
{
}

/// Splitting at `c` loses nothing: joining the parts with `c` gives the
/// text back, and no part holds `c`.
pub proof fn law_split_at_char(s: Seq<char>, c: char)
    ensures
        crate::text::join_lines(split_at_char(s, c), seq![c]) == s,
        forall|i: int, j: int| 0 <= i < split_at_char(s, c).len() && 0 <= j < split_at_char(s, c)[i].len()
            ==> split_at_char(s, c)[i][j] != c,
    decreases s.len(),
{
    lemma_split_nonempty(s, c);
    if s.len() > 0 {
        law_split_at_char(s.drop_last(), c);
        lemma_split_nonempty(s.drop_last(), c);
        let prev = split_at_char(s.drop_last(), c);
        let cur = split_at_char(s, c);
        let j = crate::text::join_lines(prev, seq![c]);
        if s.last() == c {
            assert(cur.drop_last() =~= prev);
            assert(crate::text::join_lines(cur, seq![c]) == j + seq![c] + Seq::<char>::empty());
            assert(s =~= s.drop_last() + seq![c] + Seq::<char>::empty());
        } else {
            assert(cur.drop_last() =~= prev.drop_last());
            assert(cur.last() =~= prev.last().push(s.last()));
            if prev.len() == 1 {
                assert(cur[0] == prev[0].push(s.last()));
                assert(s =~= s.drop_last().push(s.last()));
            } else {
                let jp = crate::text::join_lines(prev.drop_last(), seq![c]);
                assert(j == jp + seq![c] + prev.last());
                assert(crate::text::join_lines(cur, seq![c]) == jp + seq![c] + prev.last().push(s.last()));
                assert(jp + seq![c] + prev.last().push(s.last()) =~= (jp + seq![c] + prev.last()).push(s.last()));
                assert(s =~= s.drop_last().push(s.last()));
            }
            assert forall|i: int, j: int| 0 <= i < cur.len() && 0 <= j < cur[i].len() implies cur[i][j] != c by {
                if i < cur.len() - 1 {
                    assert(cur[i] == prev[i]);
                } else if j < prev.last().len() {
                    assert(cur[i][j] == prev[prev.len() - 1][j]);
                }
            }
        }
    }
}

proof fn lemma_split_plain(s: Seq<char>, c: char)
    requires
        !s.contains(c),
    ensures
        split_at_char(s, c) == seq![s],
    decreases s.len(),
{
    if s.len() > 0 {
        assert(!s.drop_last().contains(c)) by {
            if s.drop_last().contains(c) {
                let k = choose|k: int| 0 <= k < s.drop_last().len() && s.drop_last()[k] == c;
                assert(s[k] == c);
            }
        }
        lemma_split_plain(s.drop_last(), c);
        assert(s.last() == s[s.len() - 1]);
        assert(s.drop_last().push(s.last()) =~= s);
        assert(seq![s.drop_last()].update(0, s.drop_last().push(s.last())) =~= seq![s]);
    } else {
        assert(s =~= Seq::<char>::empty());
    }
}

proof fn lemma_split_two(a: Seq<char>, b: Seq<char>, c: char)
    requires
        !a.contains(c),
        !b.contains(c),
    ensures
        split_at_char(a + seq![c] + b, c) == seq![a, b],
    decreases b.len(),
{
    if b.len() == 0 {
        lemma_split_plain(a, c);
        assert(a + seq![c] + b =~= (a + seq![c] + b).drop_last().push(c));
        assert((a + seq![c] + b).drop_last() =~= a);
        assert(b =~= Seq::<char>::empty());
        assert(seq![a].push(Seq::<char>::empty()) =~= seq![a, b]);
    } else {
        let bd = b.drop_last();
        assert(!bd.contains(c)) by {
            if bd.contains(c) {
                let k = choose|k: int| 0 <= k < bd.len() && bd[k] == c;
                assert(b[k] == c);
            }
        }
        lemma_split_two(a, bd, c);
        let w = a + seq![c] + b;
        assert(w.drop_last() =~= a + seq![c] + bd);
        assert(w.last() == b[b.len() - 1]);
        assert(b[b.len() - 1] != c);
        assert(bd.push(w.last()) =~= b);
        assert(seq![a, bd].update(1, bd.push(w.last())) =~= seq![a, b]);
    }
}

/// The charset comes from the parameters after the media type: for a header
/// "<type>; <parameter>" whose parameter is a charset, that charset is the
/// one declared.
pub proof fn law_header_charset(media: Seq<char>, param: Seq<char>)
    requires
        !media.contains(';'),
        !param.contains(';'),
        charset_param(param) is Some,
    ensures
        header_charset(media + seq![';'] + param) == charset_param(param),
{
    lemma_split_two(media, param, ';');
}

} // verus!
