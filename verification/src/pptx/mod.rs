//! Reading a `.pptx` package: the slide size, the slides in order, and the
//! embedded media.
pub mod xml_types;
pub mod attrs;
pub mod names;
pub mod slide;
pub mod paths;

use vstd::prelude::*;
use vstd::utf8::encode_utf8;
use crate::error::PptxError;
use crate::number::{i32_literal, parse_i32};
use crate::strings::{chars_of, string_of};
use crate::xml::{XmlToken, TokenModel, tokens_view, named, tag_attrs, tag_attributes, tag_is, xml_tokenize, xml_tokens};
use crate::archive::{zip_entry_names, zip_entry_text, zip_entry_bytes, archive_names, archive_text, archive_bytes};
use self::attrs::{size_from, size_attrs, text_pair_from, text_pair_attrs};
use self::names::NameMap;
use self::paths::{starts_with, ends_with, chars_start_with, chars_end_with, append_chars, copy_chars,
    path_dir, path_file, split_dir_file, normalized, normalize_path, chars_from};
use self::slide::{Slide, SlideModel, slide_of_xml};

verus! {

// ---------------------------------------------------------------------------
// Slide size (`ppt/presentation.xml`).

/// The slide size read from position `i`: each `sldSz` tag (opening or
/// self-closing) sets it from its `cx` and `cy` attributes.
pub open spec fn size_scan(ts: Seq<TokenModel>, i: int, w: i64, h: i64) -> Result<(i64, i64), PptxError>
    decreases ts.len() - i,
{
    if i < 0 || i >= ts.len() {
        Ok((w, h))
    } else {
        match ts[i] {
            TokenModel::Start(c) | TokenModel::Empty(c) => if named(c, "sldSz"@) {
                match size_from(tag_attrs(c), w, h) {
                    Ok((w2, h2)) => size_scan(ts, i + 1, w2, h2),
                    Err(e) => Err(e),
                }
            } else {
                size_scan(ts, i + 1, w, h)
            },
            TokenModel::Eof => Ok((w, h)),
            TokenModel::Error => Err(PptxError::Xml),
            _ => size_scan(ts, i + 1, w, h),
        }
    }
}

/// The slide size that a `presentation.xml` part gives: 10 by 7.5 inches
/// (9144000 by 6858000 EMU) unless a `sldSz` tag says otherwise.
pub open spec fn size_of_xml(xml: Seq<char>) -> Result<(i64, i64), PptxError> {
    size_scan(xml_tokens(xml), 0, 9144000, 6858000)
}

/// The slide size of the package: from its `ppt/presentation.xml` part,
/// which must be present.
pub open spec fn package_size(data: Seq<u8>) -> Result<(i64, i64), PptxError> {
    match zip_entry_text(data, "ppt/presentation.xml"@) {
        Some(x) => size_of_xml(x),
        None => Err(PptxError::Archive),
    }
}

/// The slide size that the tokens of a `presentation.xml` part give.
pub fn size_of_tokens(ts: &Vec<XmlToken>) -> (r: Result<(i64, i64), PptxError>)
    ensures
        r == size_scan(tokens_view(ts@), 0, 9144000, 6858000),
{
    let ghost tv = tokens_view(ts@);
    let mut w: i64 = 9144000;
    let mut h: i64 = 6858000;
    let mut i: usize = 0;
    loop
        invariant
            tv == tokens_view(ts@),
            i <= ts@.len(),
            size_scan(tv, 0, 9144000, 6858000) == size_scan(tv, i as int, w, h),
        decreases ts@.len() - i,
    {
        if i >= ts.len() {
            return Ok((w, h));
        }
        assert(tv[i as int] == ts@[i as int]@);
        match &ts[i] {
            XmlToken::Start(c) | XmlToken::Empty(c) => {
                if tag_is(c.as_str(), "sldSz") {
                    match size_attrs(&tag_attributes(c.as_str()), w, h) {
                        Ok((w2, h2)) => {
                            w = w2;
                            h = h2;
                        },
                        Err(e) => { return Err(e); },
                    }
                }
            },
            XmlToken::Eof => { return Ok((w, h)); },
            XmlToken::Error => { return Err(PptxError::Xml); },
            _ => {},
        }
        i = i + 1;
    }
}

/// Reads the slide size (width, height in EMU) of the package.
pub fn parse_presentation_size(data: &[u8]) -> (r: Result<(i64, i64), PptxError>)
    ensures
        r == package_size(data@),
{
    let xml = match archive_text(data, "ppt/presentation.xml") {
        Some(x) => x,
        None => { return Err(PptxError::Archive); },
    };
    let toks = xml_tokenize(xml.as_str());
    size_of_tokens(&toks)
}


// ---------------------------------------------------------------------------
// The slides, in order (`ppt/_rels/presentation.xml.rels`).

/// `str::trim_start_matches`: `s` without as many leading copies of `p` as it has.
pub open spec fn trim_start(s: Seq<char>, p: Seq<char>) -> Seq<char>
    decreases s.len(),
{
    if p.len() > 0 && starts_with(s, p) {
        trim_start(s.skip(p.len() as int), p)
    } else {
        s
    }
}

/// `str::trim_end_matches`: `s` without as many trailing copies of `p` as it has.
pub open spec fn trim_end(s: Seq<char>, p: Seq<char>) -> Seq<char>
    decreases s.len(),
{
    if p.len() > 0 && ends_with(s, p) {
        trim_end(s.take(s.len() - p.len()), p)
    } else {
        s
    }
}

/// The number a slide target carries (`slides/slide7.xml` gives 7); 0 where
/// what is left after trimming is not an `i32`.
pub open spec fn slide_number(target: Seq<char>) -> i32 {
    match i32_literal(encode_utf8(trim_end(trim_start(target, "slides/slide"@), ".xml"@))) {
        Some(n) => n as i32,
        None => 0,
    }
}

/// The package path of a slide target: an absolute target without its
/// leading `/`, a relative one under `ppt/`.
pub open spec fn slide_path(target: Seq<char>) -> Seq<char> {
    if target.len() > 0 && target[0] == '/' {
        target.skip(1)
    } else {
        "ppt/"@ + target
    }
}

/// The slide relationships read from position `i`: each `Relationship` tag
/// whose type ends in `/slide` adds its number and path.
pub open spec fn slides_scan(ts: Seq<TokenModel>, i: int, acc: Seq<(i32, Seq<char>)>) -> Result<Seq<(i32, Seq<char>)>, PptxError>
    decreases ts.len() - i,
{
    if i < 0 || i >= ts.len() {
        Ok(acc)
    } else {
        match ts[i] {
            TokenModel::Start(c) | TokenModel::Empty(c) => if named(c, "Relationship"@) {
                match text_pair_from(tag_attrs(c), "Target"@, "Type"@, Seq::empty(), Seq::empty()) {
                    Err(e) => Err(e),
                    Ok((target, rtype)) => if ends_with(rtype, "/slide"@) {
                        slides_scan(ts, i + 1, acc.push((slide_number(target), slide_path(target))))
                    } else {
                        slides_scan(ts, i + 1, acc)
                    },
                }
            } else {
                slides_scan(ts, i + 1, acc)
            },
            TokenModel::Eof => Ok(acc),
            TokenModel::Error => Err(PptxError::Xml),
            _ => slides_scan(ts, i + 1, acc),
        }
    }
}

/// `x` inserted into `t` after every element whose number is at most `x`'s.
pub open spec fn insert_by_number<T>(t: Seq<(i32, T)>, x: (i32, T)) -> Seq<(i32, T)>
    decreases t.len(),
{
    if t.len() == 0 {
        seq![x]
    } else if t.last().0 <= x.0 {
        t.push(x)
    } else {
        insert_by_number(t.drop_last(), x).push(t.last())
    }
}

/// `s` sorted by number, keeping equal numbers in their order (a stable sort).
pub open spec fn sort_by_number<T>(s: Seq<(i32, T)>) -> Seq<(i32, T)>
    decreases s.len(),
{
    if s.len() == 0 {
        Seq::empty()
    } else {
        insert_by_number(sort_by_number(s.drop_last()), s.last())
    }
}

/// The slide paths that the tokens of a relationships part list, in order of
/// their numbers.
pub open spec fn slide_paths_of_tokens(ts: Seq<TokenModel>) -> Result<Seq<Seq<char>>, PptxError> {
    match slides_scan(ts, 0, Seq::empty()) {
        Ok(acc) => Ok(sort_by_number(acc).map_values(|e: (i32, Seq<char>)| e.1)),
        Err(e) => Err(e),
    }
}

/// The paths of the package's slides, in order of their numbers.
pub open spec fn slide_paths_of_xml(xml: Seq<char>) -> Result<Seq<Seq<char>>, PptxError> {
    slide_paths_of_tokens(xml_tokens(xml))
}

/// The paths of the package's slides: from `ppt/_rels/presentation.xml.rels`,
/// which must be present.
pub open spec fn package_slide_paths(data: Seq<u8>) -> Result<Seq<Seq<char>>, PptxError> {
    match zip_entry_text(data, "ppt/_rels/presentation.xml.rels"@) {
        Some(x) => slide_paths_of_xml(x),
        None => Err(PptxError::Archive),
    }
}

proof fn lemma_insert_at<T>(t: Seq<(i32, T)>, x: (i32, T), p: int)
    requires
        0 <= p <= t.len(),
        forall|k: int| p <= k < t.len() ==> #[trigger] t[k].0 > x.0,
        p == 0 || t[p - 1].0 <= x.0,
    ensures
        insert_by_number(t, x) == t.insert(p, x),
    decreases t.len(),
{
    if t.len() == 0 {
        assert(t.insert(p, x) =~= seq![x]);
    } else if t.last().0 <= x.0 {
        assert(p == t.len());
        assert(t.insert(p, x) =~= t.push(x));
    } else {
        let u = t.drop_last();
        assert forall|k: int| p <= k < u.len() implies #[trigger] u[k].0 > x.0 by {
            assert(u[k] == t[k]);
        }
        if p > 0 {
            assert(u[p - 1] == t[p - 1]);
        }
        lemma_insert_at(u, x, p);
        assert(u.insert(p, x).push(t.last()) =~= t.insert(p, x));
    }
}

/// Whether the numbers of `s` never decrease.
pub open spec fn sorted_by_number<T>(s: Seq<(i32, T)>) -> bool {
    forall|i: int, j: int| 0 <= i < j < s.len() ==> #[trigger] s[i].0 <= #[trigger] s[j].0
}

/// Where `insert_by_number` puts `x` into the sorted `t`: after every element
/// whose number is at most `x`'s and before the others.
proof fn lemma_insert_position<T>(t: Seq<(i32, T)>, x: (i32, T)) -> (p: int)
    requires
        sorted_by_number(t),
    ensures
        0 <= p <= t.len(),
        insert_by_number(t, x) == t.insert(p, x),
        forall|k: int| 0 <= k < p ==> #[trigger] t[k].0 <= x.0,
        forall|k: int| p <= k < t.len() ==> #[trigger] t[k].0 > x.0,
    decreases t.len(),
{
    if t.len() == 0 {
        assert(t.insert(0, x) =~= seq![x]);
        0
    } else if t.last().0 <= x.0 {
        assert forall|k: int| 0 <= k < t.len() implies #[trigger] t[k].0 <= x.0 by {
            if k < t.len() - 1 {
                assert(t[k].0 <= t[t.len() - 1].0);
            }
        }
        assert(t.insert(t.len() as int, x) =~= t.push(x));
        t.len() as int
    } else {
        let u = t.drop_last();
        assert(sorted_by_number(u)) by {
            assert forall|i: int, j: int| 0 <= i < j < u.len() implies #[trigger] u[i].0 <= #[trigger] u[j].0 by {
                assert(u[i] == t[i] && u[j] == t[j]);
            }
        }
        let p = lemma_insert_position(u, x);
        assert forall|k: int| 0 <= k < p implies #[trigger] t[k].0 <= x.0 by {
            assert(u[k] == t[k]);
        }
        assert forall|k: int| p <= k < t.len() implies #[trigger] t[k].0 > x.0 by {
            if k < u.len() {
                assert(u[k] == t[k]);
            }
        }
        assert(u.insert(p, x).push(t.last()) =~= t.insert(p, x));
        p
    }
}

/// Inserting by number keeps a sequence sorted and adds exactly the one element.
proof fn lemma_insert_sorted<T>(t: Seq<(i32, T)>, x: (i32, T))
    requires
        sorted_by_number(t),
    ensures
        sorted_by_number(insert_by_number(t, x)),
        insert_by_number(t, x).to_multiset() == t.to_multiset().insert(x),
        insert_by_number(t, x).len() == t.len() + 1,
{
    broadcast use vstd::seq_lib::group_to_multiset_ensures;
    let p = lemma_insert_position(t, x);
    let r = t.insert(p, x);
    t.insert_ensures(p, x);
    assert forall|i: int, j: int| 0 <= i < j < r.len() implies #[trigger] r[i].0 <= #[trigger] r[j].0 by {
        if j < p {
            assert(r[i] == t[i] && r[j] == t[j]);
        } else if j == p {
            if i < p {
                assert(r[i] == t[i]);
            }
        } else {
            assert(r[j] == t[j - 1]);
            if i < p {
                assert(r[i] == t[i]);
                assert(t[i].0 <= t[j - 1].0);
            } else if i > p {
                assert(r[i] == t[i - 1]);
            }
        }
    }
}

/// Slides come out in order of their numbers: the sorted sequence never
/// decreases in number, and holds exactly the elements it was given.
pub proof fn lemma_slides_in_order<T>(s: Seq<(i32, T)>)
    ensures
        sorted_by_number(sort_by_number(s)),
        sort_by_number(s).to_multiset() == s.to_multiset(),
        sort_by_number(s).len() == s.len(),
    decreases s.len(),
{
    broadcast use vstd::seq_lib::group_to_multiset_ensures;
    if s.len() > 0 {
        lemma_slides_in_order(s.drop_last());
        lemma_insert_sorted(sort_by_number(s.drop_last()), s.last());
        assert(s.drop_last().push(s.last()) =~= s);
    }
}

/// The elements of `s` whose number is `k`, in their order.
pub open spec fn with_number<T>(s: Seq<(i32, T)>, k: i32) -> Seq<(i32, T)>
    decreases s.len(),
{
    if s.len() == 0 {
        Seq::empty()
    } else if s.last().0 == k {
        with_number(s.drop_last(), k).push(s.last())
    } else {
        with_number(s.drop_last(), k)
    }
}

proof fn lemma_with_number_add<T>(a: Seq<(i32, T)>, b: Seq<(i32, T)>, k: i32)
    ensures
        with_number(a + b, k) == with_number(a, k) + with_number(b, k),
    decreases b.len(),
{
    if b.len() == 0 {
        assert(a + b =~= a);
        assert(with_number(a, k) + with_number(b, k) =~= with_number(a, k));
    } else {
        lemma_with_number_add(a, b.drop_last(), k);
        assert((a + b).drop_last() =~= a + b.drop_last());
        assert((a + b).last() == b.last());
        if b.last().0 == k {
            assert(with_number(a, k) + with_number(b.drop_last(), k).push(b.last())
                =~= (with_number(a, k) + with_number(b.drop_last(), k)).push(b.last()));
        }
    }
}

proof fn lemma_with_number_none<T>(t: Seq<(i32, T)>, k: i32)
    requires
        forall|i: int| 0 <= i < t.len() ==> #[trigger] t[i].0 != k,
    ensures
        with_number(t, k) == Seq::<(i32, T)>::empty(),
    decreases t.len(),
{
    if t.len() > 0 {
        let u = t.drop_last();
        assert forall|i: int| 0 <= i < u.len() implies #[trigger] u[i].0 != k by {
            assert(u[i] == t[i]);
        }
        lemma_with_number_none(u, k);
        assert(t[t.len() - 1].0 != k);
    }
}

/// Slides with equal numbers keep the order in which they were listed: the
/// sort is stable.
pub proof fn lemma_slides_stable<T>(s: Seq<(i32, T)>, k: i32)
    ensures
        with_number(sort_by_number(s), k) == with_number(s, k),
    decreases s.len(),
{
    if s.len() > 0 {
        let u = s.drop_last();
        let x = s.last();
        lemma_slides_stable(u, k);
        lemma_slides_in_order(u);
        let t = sort_by_number(u);
        let p = lemma_insert_position(t, x);
        let front = t.take(p);
        let back = t.skip(p);
        assert(t.insert(p, x) =~= front.push(x) + back);
        assert(front + back =~= t);
        lemma_with_number_add(front.push(x), back, k);
        lemma_with_number_add(front, back, k);
        assert(front.push(x).drop_last() =~= front);
        if x.0 == k {
            assert forall|i: int| 0 <= i < back.len() implies #[trigger] back[i].0 != k by {
                assert(back[i] == t[p + i]);
            }
            lemma_with_number_none(back, k);
            assert(with_number(front, k).push(x) + Seq::<(i32, T)>::empty() =~= with_number(front, k).push(x));
            assert(with_number(front, k) + Seq::<(i32, T)>::empty() =~= with_number(front, k));
        }
    }
}

/// The views of numbered slide paths.
pub open spec fn numbered_view(v: Seq<(i32, String)>) -> Seq<(i32, Seq<char>)> {
    v.map_values(|e: (i32, String)| (e.0, e.1@))
}

/// Sorts numbered paths by number, stably.
fn sort_numbered(v: &Vec<(i32, String)>) -> (r: Vec<(i32, String)>)
    ensures
        numbered_view(r@) == sort_by_number(numbered_view(v@)),
{
    let ghost src = numbered_view(v@);
    let mut out: Vec<(i32, String)> = Vec::new();
    assert(numbered_view(out@) =~= sort_by_number(src.take(0)));
    let mut k: usize = 0;
    while k < v.len()
        invariant
            src == numbered_view(v@),
            k <= v@.len(),
            numbered_view(out@) == sort_by_number(src.take(k as int)),
        decreases v@.len() - k,
    {
        let x = (v[k].0, v[k].1.clone());
        assert(src[k as int] == (x.0, x.1@));
        assert(src.take(k + 1).drop_last() =~= src.take(k as int));
        assert(src.take(k + 1).last() == (x.0, x.1@));
        let ghost t = numbered_view(out@);
        let mut p = out.len();
        while p > 0 && out[p - 1].0 > x.0
            invariant
                p <= out@.len(),
                t == numbered_view(out@),
                forall|j: int| p <= j < t.len() ==> #[trigger] t[j].0 > x.0,
            decreases p,
        {
            p = p - 1;
        }
        proof {
            lemma_insert_at(t, (x.0, x.1@), p as int);
        }
        out.insert(p, x);
        assert(numbered_view(out@) =~= t.insert(p as int, (x.0, x.1@)));
        k = k + 1;
    }
    assert(src.take(k as int) =~= src);
    out
}

/// Trims leading copies of `p` off `s`.
fn trim_start_chars(s: &[char], p: &[char]) -> (r: Vec<char>)
    ensures
        r@ == trim_start(s@, p@),
{
    let mut cur = copy_chars(s);
    if p.len() == 0 {
        return cur;
    }
    loop
        invariant
            p@.len() > 0,
            trim_start(cur@, p@) == trim_start(s@, p@),
        decreases cur@.len(),
    {
        if !chars_start_with(cur.as_slice(), p) {
            return cur;
        }
        let mut next: Vec<char> = Vec::new();
        let mut k = p.len();
        while k < cur.len()
            invariant
                p@.len() <= k <= cur@.len(),
                next@ == cur@.subrange(p@.len() as int, k as int),
            decreases cur@.len() - k,
        {
            next.push(cur[k]);
            assert(cur@.subrange(p@.len() as int, k + 1) =~= cur@.subrange(p@.len() as int, k as int).push(cur@[k as int]));
            k = k + 1;
        }
        assert(next@ =~= cur@.skip(p@.len() as int));
        cur = next;
    }
}

/// Trims trailing copies of `p` off `s`.
fn trim_end_chars(s: &[char], p: &[char]) -> (r: Vec<char>)
    ensures
        r@ == trim_end(s@, p@),
{
    let mut cur = copy_chars(s);
    if p.len() == 0 {
        return cur;
    }
    loop
        invariant
            p@.len() > 0,
            trim_end(cur@, p@) == trim_end(s@, p@),
        decreases cur@.len(),
    {
        if !chars_end_with(cur.as_slice(), p) {
            return cur;
        }
        let keep = cur.len() - p.len();
        cur.truncate(keep);
        assert(cur@ =~= cur@.take(keep as int));
    }
}

/// The number and package path of a slide target.
fn numbered_slide(target: &String) -> (r: (i32, String))
    ensures
        r.0 == slide_number(target@),
        r.1@ == slide_path(target@),
{
    let t = chars_of(target.as_str());
    let prefix = chars_of("slides/slide");
    let suffix = chars_of(".xml");
    let a = trim_start_chars(t.as_slice(), prefix.as_slice());
    let b = trim_end_chars(a.as_slice(), suffix.as_slice());
    let bs = string_of(b.as_slice());
    let num = match parse_i32(bs.as_str().as_bytes()) {
        Some(n) => n,
        None => 0,
    };
    let path = if t.len() > 0 && t[0] == '/' {
        let rest = chars_from(t.as_slice(), 1);
        string_of(rest.as_slice())
    } else {
        let mut p = chars_of("ppt/");
        append_chars(&mut p, t.as_slice());
        string_of(p.as_slice())
    };
    (num, path)
}

fn slides_of_tokens(ts: &Vec<XmlToken>) -> (r: Result<Vec<(i32, String)>, PptxError>)
    ensures
        match slides_scan(tokens_view(ts@), 0, Seq::empty()) {
            Ok(acc) => r matches Ok(v) && numbered_view(v@) == acc,
            Err(e) => r matches Err(x) && x == e,
        },
{
    let ghost tv = tokens_view(ts@);
    let mut acc: Vec<(i32, String)> = Vec::new();
    let mut i: usize = 0;
    assert(numbered_view(acc@) =~= Seq::<(i32, Seq<char>)>::empty());
    loop
        invariant
            tv == tokens_view(ts@),
            i <= ts@.len(),
            slides_scan(tv, 0, Seq::empty()) == slides_scan(tv, i as int, numbered_view(acc@)),
        decreases ts@.len() - i,
    {
        if i >= ts.len() {
            return Ok(acc);
        }
        assert(tv[i as int] == ts@[i as int]@);
        match &ts[i] {
            XmlToken::Start(c) | XmlToken::Empty(c) => {
                if tag_is(c.as_str(), "Relationship") {
                    match text_pair_attrs(&tag_attributes(c.as_str()), "Target", "Type") {
                        Ok((target, rtype)) => {
                            let rt = chars_of(rtype.as_str());
                            let suffix = chars_of("/slide");
                            if chars_end_with(rt.as_slice(), suffix.as_slice()) {
                                let e = numbered_slide(&target);
                                let ghost before = numbered_view(acc@);
                                acc.push(e);
                                assert(numbered_view(acc@) =~= before.push((e.0, e.1@)));
                            }
                        },
                        Err(e) => { return Err(e); },
                    }
                }
            },
            XmlToken::Eof => { return Ok(acc); },
            XmlToken::Error => { return Err(PptxError::Xml); },
            _ => {},
        }
        i = i + 1;
    }
}

/// The views of a sequence of strings.
pub open spec fn strings_view(v: Seq<String>) -> Seq<Seq<char>> {
    v.map_values(|s: String| s@)
}

/// The package paths of the slides that the tokens of a relationships part
/// list, in order of their numbers.
pub fn slide_paths(toks: &Vec<XmlToken>) -> (r: Result<Vec<String>, PptxError>)
    ensures
        match slide_paths_of_tokens(tokens_view(toks@)) {
            Ok(ps) => r matches Ok(v) && strings_view(v@) == ps,
            Err(e) => r matches Err(x) && x == e,
        },
{
    let numbered = match slides_of_tokens(toks) {
        Ok(v) => v,
        Err(e) => { return Err(e); },
    };
    let sorted = sort_numbered(&numbered);
    let ghost sv = numbered_view(sorted@);
    let ghost want = sv.map_values(|e: (i32, Seq<char>)| e.1);
    let mut paths: Vec<String> = Vec::new();
    let mut k: usize = 0;
    while k < sorted.len()
        invariant
            sv == numbered_view(sorted@),
            want == sv.map_values(|e: (i32, Seq<char>)| e.1),
            k <= sorted@.len(),
            strings_view(paths@) == want.take(k as int),
        decreases sorted@.len() - k,
    {
        let p = sorted[k].1.clone();
        assert(want[k as int] == p@);
        let ghost before = strings_view(paths@);
        paths.push(p);
        assert(strings_view(paths@) =~= before.push(p@));
        assert(want.take(k + 1) =~= want.take(k as int).push(p@));
        k = k + 1;
    }
    assert(want.take(k as int) =~= want);
    Ok(paths)
}

/// The package paths of the slides, in order of their numbers.
pub fn discover_slides(data: &[u8]) -> (r: Result<Vec<String>, PptxError>)
    ensures
        match package_slide_paths(data@) {
            Ok(ps) => r matches Ok(v) && strings_view(v@) == ps,
            Err(e) => r matches Err(x) && x == e,
        },
{
    let xml = match archive_text(data, "ppt/_rels/presentation.xml.rels") {
        Some(x) => x,
        None => { return Err(PptxError::Archive); },
    };
    let toks = xml_tokenize(xml.as_str());
    slide_paths(&toks)
}


// ---------------------------------------------------------------------------
// A slide's relationships (`ppt/slides/_rels/slideN.xml.rels`).

/// The folder of a slide part: the part's path without its file name.
pub open spec fn rels_dir(slide: Seq<char>) -> Seq<char> {
    trim_end(slide, path_file(slide))
}

/// The path of a slide part's relationships part: `_rels/` and the file name
/// with `.rels` appended, in the slide's folder.
pub open spec fn rels_path(slide: Seq<char>) -> Seq<char> {
    rels_dir(slide) + "_rels/"@ + path_file(slide) + ".rels"@
}

/// The package path that a relationship target names, seen from the folder
/// `dir` (empty or ending in `/`): an absolute target without its leading
/// `/`; a target that climbs with `../` resolved against the folder; any other
/// target inside the folder.
pub open spec fn rel_target(dir: Seq<char>, target: Seq<char>) -> Seq<char> {
    if target.len() > 0 && target[0] == '/' {
        target.skip(1)
    } else if starts_with(target, "../"@) {
        normalized(dir + target)
    } else {
        dir + target
    }
}

/// The relationships read from position `i`: each `Relationship` tag with a
/// non-empty `Id` maps the id to the package path of its `Target`.
pub open spec fn rels_scan(ts: Seq<TokenModel>, i: int, dir: Seq<char>, acc: Map<Seq<char>, Seq<char>>) -> Result<Map<Seq<char>, Seq<char>>, PptxError>
    decreases ts.len() - i,
{
    if i < 0 || i >= ts.len() {
        Ok(acc)
    } else {
        match ts[i] {
            TokenModel::Start(c) | TokenModel::Empty(c) => if named(c, "Relationship"@) {
                match text_pair_from(tag_attrs(c), "Id"@, "Target"@, Seq::empty(), Seq::empty()) {
                    Err(e) => Err(e),
                    Ok((id, target)) => if id.len() > 0 {
                        rels_scan(ts, i + 1, dir, acc.insert(id, rel_target(dir, target)))
                    } else {
                        rels_scan(ts, i + 1, dir, acc)
                    },
                }
            } else {
                rels_scan(ts, i + 1, dir, acc)
            },
            TokenModel::Eof => Ok(acc),
            TokenModel::Error => Err(PptxError::Xml),
            _ => rels_scan(ts, i + 1, dir, acc),
        }
    }
}

/// The relationships of the slide part `slide` (id to package path, in
/// document order); none where the package has no relationships part for it.
pub open spec fn slide_rels(data: Seq<u8>, slide: Seq<char>) -> Result<Map<Seq<char>, Seq<char>>, PptxError> {
    match zip_entry_text(data, rels_path(slide)) {
        Some(x) => rels_scan(xml_tokens(x), 0, rels_dir(slide), Map::empty()),
        None => Ok(Map::empty()),
    }
}

/// The package path that `target` names, seen from the folder `dir`.
fn resolve_target(dir: &Vec<char>, target: &String) -> (r: String)
    ensures
        r@ == rel_target(dir@, target@),
{
    let t = chars_of(target.as_str());
    if t.len() > 0 && t[0] == '/' {
        let rest = chars_from(t.as_slice(), 1);
        return string_of(rest.as_slice());
    }
    let up = chars_of("../");
    // `dir` is empty or ends in `/`, so joining the two paths is concatenation.
    let mut joined = copy_chars(dir.as_slice());
    append_chars(&mut joined, t.as_slice());
    let js = string_of(joined.as_slice());
    if chars_start_with(t.as_slice(), up.as_slice()) {
        normalize_path(js.as_str())
    } else {
        js
    }
}

/// The relationships that the tokens of a relationships part list, with
/// targets seen from the folder `dir`.
pub fn rels_of_tokens(ts: &Vec<XmlToken>, dir: &Vec<char>) -> (r: Result<NameMap<String>, PptxError>)
    ensures
        match rels_scan(tokens_view(ts@), 0, dir@, Map::empty()) {
            Ok(acc) => r matches Ok(m) && m@ == acc,
            Err(e) => r matches Err(x) && x == e,
        },
{
    let ghost tv = tokens_view(ts@);
    let mut map: NameMap<String> = NameMap::new();
    let mut i: usize = 0;
    loop
        invariant
            tv == tokens_view(ts@),
            i <= ts@.len(),
            rels_scan(tv, 0, dir@, Map::empty()) == rels_scan(tv, i as int, dir@, map@),
        decreases ts@.len() - i,
    {
        if i >= ts.len() {
            return Ok(map);
        }
        assert(tv[i as int] == ts@[i as int]@);
        match &ts[i] {
            XmlToken::Start(c) | XmlToken::Empty(c) => {
                if tag_is(c.as_str(), "Relationship") {
                    match text_pair_attrs(&tag_attributes(c.as_str()), "Id", "Target") {
                        Ok((id, target)) => {
                            if !id.as_str().is_empty() {
                                let full = resolve_target(dir, &target);
                                map.insert(id, full);
                            }
                        },
                        Err(e) => { return Err(e); },
                    }
                }
            },
            XmlToken::Eof => { return Ok(map); },
            XmlToken::Error => { return Err(PptxError::Xml); },
            _ => {},
        }
        i = i + 1;
    }
}

/// Reads the relationships of the slide part `slide_path` (relationship id to
/// package path); a slide without a relationships part has none.
pub fn load_slide_rels(data: &[u8], slide_path: &str) -> (r: Result<NameMap<String>, PptxError>)
    ensures
        match slide_rels(data@, slide_path@) {
            Ok(acc) => r matches Ok(m) && m@ == acc,
            Err(e) => r matches Err(x) && x == e,
        },
{
    let p = chars_of(slide_path);
    let (_, file) = split_dir_file(p.as_slice());
    let dir = trim_end_chars(p.as_slice(), file.as_slice());
    let mut rp = copy_chars(dir.as_slice());
    let mid = chars_of("_rels/");
    let ext = chars_of(".rels");
    append_chars(&mut rp, mid.as_slice());
    append_chars(&mut rp, file.as_slice());
    append_chars(&mut rp, ext.as_slice());
    let rps = string_of(rp.as_slice());
    assert(rps@ == rels_path(slide_path@));
    let xml = match archive_text(data, rps.as_str()) {
        Some(x) => x,
        None => { return Ok(NameMap::new()); },
    };
    let toks = xml_tokenize(xml.as_str());
    rels_of_tokens(&toks, &dir)
}


// ---------------------------------------------------------------------------
// The presentation.

/// The slide part `slide` of the package: read with its relationships.
pub open spec fn one_slide(data: Seq<u8>, slide: Seq<char>) -> Result<SlideModel, PptxError> {
    match slide_rels(data, slide) {
        Err(e) => Err(e),
        Ok(rels) => match zip_entry_text(data, slide) {
            Some(x) => slide_of_xml(x, rels),
            None => Err(PptxError::Archive),
        },
    }
}

/// The slide parts `paths` of the package, read in order; the first that
/// fails decides the error.
pub open spec fn slides_from(data: Seq<u8>, paths: Seq<Seq<char>>) -> Result<Seq<SlideModel>, PptxError>
    decreases paths.len(),
{
    if paths.len() == 0 {
        Ok(Seq::empty())
    } else {
        match slides_from(data, paths.drop_last()) {
            Err(e) => Err(e),
            Ok(ss) => match one_slide(data, paths.last()) {
                Err(e) => Err(e),
                Ok(s) => Ok(ss.push(s)),
            },
        }
    }
}

/// The media of the package among the entries `names`: each entry under
/// `ppt/media/`, in order, with its bytes.
pub open spec fn media_from(data: Seq<u8>, names: Seq<Seq<char>>) -> Result<Map<Seq<char>, Seq<u8>>, PptxError>
    decreases names.len(),
{
    if names.len() == 0 {
        Ok(Map::empty())
    } else {
        match media_from(data, names.drop_last()) {
            Err(e) => Err(e),
            Ok(acc) => if starts_with(names.last(), "ppt/media/"@) {
                match zip_entry_bytes(data, names.last()) {
                    Some(b) => Ok(acc.insert(names.last(), b)),
                    None => Err(PptxError::Archive),
                }
            } else {
                Ok(acc)
            },
        }
    }
}

/// The mathematical value of a [`Presentation`].
pub struct PresentationModel {
    pub slide_width_emu: i64,
    pub slide_height_emu: i64,
    pub slides: Seq<SlideModel>,
    pub images: Map<Seq<char>, Seq<u8>>,
}

/// The presentation that the package `data` holds: its slide size, its
/// slides in order of their numbers, and its media.
pub open spec fn presentation_of(data: Seq<u8>) -> Result<PresentationModel, PptxError> {
    match package_size(data) {
        Err(e) => Err(e),
        Ok((w, h)) => match package_slide_paths(data) {
            Err(e) => Err(e),
            Ok(paths) => match slides_from(data, paths) {
                Err(e) => Err(e),
                Ok(slides) => match zip_entry_names(data) {
                    None => Err(PptxError::Archive),
                    Some(names) => match media_from(data, names) {
                        Err(e) => Err(e),
                        Ok(images) => Ok(PresentationModel {
                            slide_width_emu: w,
                            slide_height_emu: h,
                            slides: slides,
                            images: images,
                        }),
                    },
                },
            },
        },
    }
}

proof fn lemma_slides_err(data: Seq<u8>, paths: Seq<Seq<char>>, k: int)
    requires
        0 <= k <= paths.len(),
        slides_from(data, paths.take(k)) is Err,
    ensures
        slides_from(data, paths) == slides_from(data, paths.take(k)),
    decreases paths.len() - k,
{
    if k < paths.len() {
        assert(paths.take(k + 1).drop_last() =~= paths.take(k));
        lemma_slides_err(data, paths, k + 1);
    } else {
        assert(paths.take(k) =~= paths);
    }
}

proof fn lemma_media_err(data: Seq<u8>, names: Seq<Seq<char>>, k: int)
    requires
        0 <= k <= names.len(),
        media_from(data, names.take(k)) is Err,
    ensures
        media_from(data, names) == media_from(data, names.take(k)),
    decreases names.len() - k,
{
    if k < names.len() {
        assert(names.take(k + 1).drop_last() =~= names.take(k));
        lemma_media_err(data, names, k + 1);
    } else {
        assert(names.take(k) =~= names);
    }
}

/// Reads the media among the entries `names` of the package.
pub fn media_of(data: &[u8], names: &Vec<String>) -> (r: Result<NameMap<Vec<u8>>, PptxError>)
    ensures
        match media_from(data@, strings_view(names@)) {
            Ok(acc) => r matches Ok(m) && m@ == acc,
            Err(e) => r matches Err(x) && x == e,
        },
{
    let ghost nv = strings_view(names@);
    let media = chars_of("ppt/media/");
    let mut images: NameMap<Vec<u8>> = NameMap::new();
    let mut m: usize = 0;
    assert(nv.take(0) =~= Seq::<Seq<char>>::empty());
    while m < names.len()
        invariant
            nv == strings_view(names@),
            media@ == "ppt/media/"@,
            m <= names@.len(),
            media_from(data@, nv.take(m as int)) == Ok::<Map<Seq<char>, Seq<u8>>, PptxError>(images@),
        decreases names@.len() - m,
    {
        let name = &names[m];
        assert(nv[m as int] == name@);
        assert(nv.take(m + 1).drop_last() =~= nv.take(m as int));
        assert(nv.take(m + 1).last() == name@);
        let nc = chars_of(name.as_str());
        if chars_start_with(nc.as_slice(), media.as_slice()) {
            match archive_bytes(data, name.as_str()) {
                Some(b) => { images.insert(name.clone(), b); },
                None => {
                    proof { lemma_media_err(data@, nv, m + 1); }
                    return Err(PptxError::Archive);
                },
            }
        }
        m = m + 1;
    }
    assert(nv.take(m as int) =~= nv);
    Ok(images)
}

/// The views of a sequence of slides.
pub open spec fn slides_view(v: Seq<Slide>) -> Seq<SlideModel> {
    v.map_values(|s: Slide| s@)
}

/// A parsed `.pptx` package.
pub struct Presentation {
    pub slide_width_emu: i64,
    pub slide_height_emu: i64,
    pub slides: Vec<Slide>,
    pub images: NameMap<Vec<u8>>,
}

impl View for Presentation {
    type V = PresentationModel;

    open spec fn view(&self) -> PresentationModel {
        PresentationModel {
            slide_width_emu: self.slide_width_emu,
            slide_height_emu: self.slide_height_emu,
            slides: slides_view(self.slides@),
            images: self.images@,
        }
    }
}

impl Presentation {
    /// Reads a `.pptx` package from its bytes. An `srgbClr` value that cannot
    /// be cut into hex pairs is answered with [`PptxError::ColorCut`].
    pub fn open(data: &[u8]) -> (r: Result<Presentation, PptxError>)
        ensures
            match presentation_of(data@) {
                Ok(m) => r matches Ok(p) && p@ == m,
                Err(e) => r matches Err(x) && x == e,
            },
    {
        let (w, h) = match parse_presentation_size(data) {
            Ok(s) => s,
            Err(e) => { return Err(e); },
        };
        let paths = match discover_slides(data) {
            Ok(v) => v,
            Err(e) => { return Err(e); },
        };
        let ghost pv = strings_view(paths@);
        let mut slides: Vec<Slide> = Vec::new();
        let mut k: usize = 0;
        assert(pv.take(0) =~= Seq::<Seq<char>>::empty());
        assert(slides_view(slides@) =~= Seq::<SlideModel>::empty());
        while k < paths.len()
            invariant
                pv == strings_view(paths@),
                package_size(data@) == Ok::<(i64, i64), PptxError>((w, h)),
                package_slide_paths(data@) == Ok::<Seq<Seq<char>>, PptxError>(pv),
                k <= paths@.len(),
                slides_from(data@, pv.take(k as int)) == Ok::<Seq<SlideModel>, PptxError>(slides_view(slides@)),
            decreases paths@.len() - k,
        {
            let path = &paths[k];
            assert(pv[k as int] == path@);
            assert(pv.take(k + 1).drop_last() =~= pv.take(k as int));
            assert(pv.take(k + 1).last() == path@);
            let rels = match load_slide_rels(data, path.as_str()) {
                Ok(m) => m,
                Err(e) => {
                    proof { lemma_slides_err(data@, pv, k + 1); }
                    return Err(e);
                },
            };
            let xml = match archive_text(data, path.as_str()) {
                Some(x) => x,
                None => {
                    proof { lemma_slides_err(data@, pv, k + 1); }
                    return Err(PptxError::Archive);
                },
            };
            if Slide::would_cut(xml.as_str(), &rels) {
                proof { lemma_slides_err(data@, pv, k + 1); }
                return Err(PptxError::ColorCut);
            }
            let slide = match Slide::parse(xml.as_str(), &rels) {
                Ok(s) => s,
                Err(e) => {
                    proof { lemma_slides_err(data@, pv, k + 1); }
                    return Err(e);
                },
            };
            let ghost before = slides_view(slides@);
            slides.push(slide);
            assert(slides_view(slides@) =~= before.push(slide@));
            k = k + 1;
        }
        assert(pv.take(k as int) =~= pv);
        let names = match archive_names(data) {
            Some(n) => n,
            None => { return Err(PptxError::Archive); },
        };
        let images = match media_of(data, &names) {
            Ok(m) => m,
            Err(e) => { return Err(e); },
        };
        Ok(Presentation { slide_width_emu: w, slide_height_emu: h, slides, images })
    }
}

/// Each slide path gives one slide, in the same order.
proof fn lemma_slides_from_each(data: Seq<u8>, paths: Seq<Seq<char>>)
    requires
        slides_from(data, paths) is Ok,
    ensures
        slides_from(data, paths)->Ok_0.len() == paths.len(),
        forall|i: int| 0 <= i < paths.len() ==>
            one_slide(data, #[trigger] paths[i]) == Ok::<SlideModel, PptxError>(slides_from(data, paths)->Ok_0[i]),
    decreases paths.len(),
{
    if paths.len() > 0 {
        let u = paths.drop_last();
        lemma_slides_from_each(data, u);
        let ss = slides_from(data, u)->Ok_0;
        assert forall|i: int| 0 <= i < paths.len() implies
            one_slide(data, #[trigger] paths[i]) == Ok::<SlideModel, PptxError>(slides_from(data, paths)->Ok_0[i]) by {
            if i < u.len() {
                assert(u[i] == paths[i]);
            }
        }
    }
}

/// Every media entry kept lies under `ppt/media/`.
proof fn lemma_media_from_folder(data: Seq<u8>, names: Seq<Seq<char>>)
    requires
        media_from(data, names) is Ok,
    ensures
        forall|k: Seq<char>| #[trigger] media_from(data, names)->Ok_0.contains_key(k) ==>
            starts_with(k, "ppt/media/"@),
    decreases names.len(),
{
    if names.len() > 0 {
        lemma_media_from_folder(data, names.drop_last());
    }
}

/// A presentation holds one slide for each slide its relationships list, in
/// their order, each read from its own part; and only media under
/// `ppt/media/`.
pub proof fn lemma_presentation_slides(data: Seq<u8>)
    requires
        presentation_of(data) is Ok,
    ensures
        package_slide_paths(data) is Ok,
        presentation_of(data)->Ok_0.slides.len() == package_slide_paths(data)->Ok_0.len(),
        forall|i: int| 0 <= i < package_slide_paths(data)->Ok_0.len() ==>
            one_slide(data, #[trigger] package_slide_paths(data)->Ok_0[i])
                == Ok::<SlideModel, PptxError>(presentation_of(data)->Ok_0.slides[i]),
        forall|k: Seq<char>| #[trigger] presentation_of(data)->Ok_0.images.contains_key(k) ==>
            starts_with(k, "ppt/media/"@),
{
    let paths = package_slide_paths(data)->Ok_0;
    lemma_slides_from_each(data, paths);
    lemma_media_from_folder(data, zip_entry_names(data)->Some_0);
}

proof fn lemma_media_from_entries(data: Seq<u8>, names: Seq<Seq<char>>)
    requires
        media_from(data, names) is Ok,
    ensures
        forall|i: int| 0 <= i < names.len() && starts_with(#[trigger] names[i], "ppt/media/"@) ==> {
            &&& media_from(data, names)->Ok_0.contains_key(names[i])
            &&& zip_entry_bytes(data, names[i]) == Some(media_from(data, names)->Ok_0[names[i]])
        },
        forall|k: Seq<char>| #[trigger] media_from(data, names)->Ok_0.contains_key(k) ==>
            names.contains(k) && starts_with(k, "ppt/media/"@),
    decreases names.len(),
{
    if names.len() > 0 {
        let u = names.drop_last();
        lemma_media_from_entries(data, u);
        let acc = media_from(data, u)->Ok_0;
        let m = media_from(data, names)->Ok_0;
        assert forall|i: int| 0 <= i < names.len() && starts_with(#[trigger] names[i], "ppt/media/"@) implies {
            &&& m.contains_key(names[i])
            &&& zip_entry_bytes(data, names[i]) == Some(m[names[i]])
        } by {
            if i < u.len() {
                assert(u[i] == names[i]);
            }
        }
        assert forall|k: Seq<char>| #[trigger] m.contains_key(k) implies names.contains(k) && starts_with(k, "ppt/media/"@) by {
            if acc.contains_key(k) {
                let w = choose|w: int| 0 <= w < u.len() && u[w] == k;
                assert(names[w] == k);
            } else {
                assert(names[names.len() - 1] == k);
            }
        }
    }
}

/// The media of a presentation are exactly the readable archive entries under
/// `ppt/media/`: every entry whose name starts with `ppt/media/` is an image,
/// mapped to that entry's bytes, and every image is such an entry.
pub proof fn lemma_presentation_media(data: Seq<u8>)
    requires
        presentation_of(data) is Ok,
    ensures
        zip_entry_names(data) is Some,
        forall|i: int| 0 <= i < zip_entry_names(data)->Some_0.len()
            && starts_with(#[trigger] zip_entry_names(data)->Some_0[i], "ppt/media/"@) ==> {
            &&& presentation_of(data)->Ok_0.images.contains_key(zip_entry_names(data)->Some_0[i])
            &&& zip_entry_bytes(data, zip_entry_names(data)->Some_0[i])
                == Some(presentation_of(data)->Ok_0.images[zip_entry_names(data)->Some_0[i]])
        },
        forall|k: Seq<char>| #[trigger] presentation_of(data)->Ok_0.images.contains_key(k) ==>
            zip_entry_names(data)->Some_0.contains(k) && starts_with(k, "ppt/media/"@),
{
    lemma_media_from_entries(data, zip_entry_names(data)->Some_0);
}

/// Whether `d` is a non-empty run of decimal digits.
pub open spec fn is_decimal(d: Seq<char>) -> bool {
    d.len() > 0 && forall|k: int| 0 <= k < d.len() ==> '0' <= #[trigger] d[k] <= '9'
}

/// The value of a run of decimal digits, most significant first.
pub open spec fn decimal_value(d: Seq<char>) -> int
    decreases d.len(),
{
    if d.len() == 0 {
        0
    } else {
        decimal_value(d.drop_last()) * 10 + (d.last() as int - '0' as int)
    }
}

proof fn lemma_digit_bytes(b: Seq<u8>, d: Seq<char>)
    requires
        b.len() == d.len(),
        forall|k: int| 0 <= k < d.len() ==> '0' <= #[trigger] d[k] <= '9',
        forall|k: int| 0 <= k < d.len() ==> #[trigger] b[k] as int == d[k] as int,
    ensures
        crate::number::digits_value(b, 10) == Some(decimal_value(d)),
        decimal_value(d) >= 0,
    decreases d.len(),
{
    if d.len() > 0 {
        let bu = b.drop_last();
        let du = d.drop_last();
        assert forall|k: int| 0 <= k < du.len() implies '0' <= #[trigger] du[k] <= '9' by {
            assert(du[k] == d[k]);
        }
        assert forall|k: int| 0 <= k < du.len() implies #[trigger] bu[k] as int == du[k] as int by {
            assert(bu[k] == b[k] && du[k] == d[k]);
        }
        lemma_digit_bytes(bu, du);
        assert(b.last() as int == d.last() as int);
        assert('0' <= d[d.len() - 1] <= '9');
    }
}

/// A slide target `slides/slideN.xml`, with `N` a decimal numeral in the range
/// of an `i32`, carries the number `N` (read in base ten), and lies at
/// `ppt/slides/slideN.xml`.
pub proof fn lemma_slide_number_decimal(d: Seq<char>)
    requires
        is_decimal(d),
        decimal_value(d) <= i32::MAX,
    ensures
        slide_number("slides/slide"@ + d + ".xml"@) as int == decimal_value(d),
        slide_path("slides/slide"@ + d + ".xml"@) == "ppt/slides/slide"@ + d + ".xml"@,
{
    broadcast use vstd::utf8::group_utf8_lib;
    reveal_strlit("slides/slide");
    reveal_strlit(".xml");
    reveal_strlit("ppt/");
    reveal_strlit("ppt/slides/slide");
    let p = "slides/slide"@;
    let x = ".xml"@;
    let t = p + d + x;
    let dx = d + x;
    assert(t.take(p.len() as int) =~= p);
    assert(t.skip(p.len() as int) =~= dx);
    assert(dx[0] == d[0]);
    assert(!starts_with(dx, p)) by {
        if starts_with(dx, p) {
            assert(dx.take(p.len() as int)[0] == p[0]);
        }
    }
    assert(trim_start(dx, p) == dx);
    assert(trim_start(t, p) == dx);
    assert(dx.skip(dx.len() - x.len()) =~= x);
    assert(dx.take(dx.len() - x.len()) =~= d);
    assert(!ends_with(d, x)) by {
        if ends_with(d, x) {
            assert(d.skip(d.len() - x.len())[3] == d[d.len() - 1]);
            assert('0' <= d[d.len() - 1] <= '9');
        }
    }
    assert(trim_end(d, x) == d);
    assert(trim_end(dx, x) == d);
    assert(vstd::utf8::is_ascii_chars(d)) by {
        assert forall|k: int| 0 <= k < d.len() implies '\0' <= #[trigger] d[k] <= '\u{7f}' by {
            assert('0' <= d[k] <= '9');
        }
    }
    let b = encode_utf8(d);
    assert forall|k: int| 0 <= k < d.len() implies #[trigger] b[k] as int == d[k] as int by {
        assert(d[k] as u8 == b[k]);
        assert('0' <= d[k] <= '9');
    }
    lemma_digit_bytes(b, d);
    assert(b[0] as int == d[0] as int);
    assert('0' <= d[0] <= '9');
    assert(i32_literal(b) == Some(decimal_value(d)));
    assert(t[0] == 's');
    assert("ppt/"@ + t =~= "ppt/slides/slide"@ + d + x);
}

} // verus!
