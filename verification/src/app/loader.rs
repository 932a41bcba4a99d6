//! From files to doc-panel views: the file-info texts of the status bar.

use vstd::prelude::*;
use std::path::PathBuf;
use crate::markdown::{render, rendered_ok, source_events, tied_to};
use crate::path::{join_path, joined_path};
use crate::spec::{
    countable, files_view, DirSnapshot, DocEntry, DocKind, NodeId, Spec, SteeringDoc, TreeSource,
};
use crate::spec::meta::{meta_error_text, DocKindV};
use crate::text::{chars_of, concat, lines, lines_of, string_of};
use super::{DocView, FileInfo, FileRead};

verus! {

/// Columns of the doc panel's frame.
pub const DOC_PANEL_BORDER: u16 = 2;

/// The doc panel's inner width for a given outer width.
pub fn panel_inner_width(outer: u16) -> (r: u16)
    ensures
        r == (if outer >= DOC_PANEL_BORDER { outer - DOC_PANEL_BORDER } else { 0 }),
{
    outer.saturating_sub(DOC_PANEL_BORDER)
}

/// The decimal digit `d`.
pub open spec fn digit(d: int) -> char {
    "0123456789"@[d]
}

/// `n` in decimal, without leading zeros.
pub open spec fn dec(n: nat) -> Seq<char>
    decreases n,
{
    if n < 10 {
        seq![digit(n as int)]
    } else {
        dec(n / 10).push(digit((n % 10) as int))
    }
}

/// `n` in decimal, zero-padded on the left to at least `w` digits.
pub open spec fn dec_pad(n: nat, w: nat) -> Seq<char> {
    let d = dec(n);
    if d.len() >= w {
        d
    } else {
        Seq::new((w - d.len()) as nat, |i: int| '0') + d
    }
}

fn digit_char(d: u128) -> (r: char)
    requires
        d < 10,
    ensures
        r == digit(d as int),
{
    proof {
        reveal_strlit("0123456789");
    }
    if d == 0 { '0' } else if d == 1 { '1' } else if d == 2 { '2' } else if d == 3 { '3' }
    else if d == 4 { '4' } else if d == 5 { '5' } else if d == 6 { '6' } else if d == 7 { '7' }
    else if d == 8 { '8' } else { '9' }
}

/// Appends `n` in decimal.
pub fn push_dec(out: &mut Vec<char>, n: u128)
    ensures
        final(out)@ == old(out)@ + dec(n as nat),
    decreases n,
{
    if n < 10 {
        out.push(digit_char(n));
        assert(final(out)@ =~= old(out)@ + dec(n as nat)) by {
            reveal_strlit("0123456789");
        }
    } else {
        push_dec(out, n / 10);
        out.push(digit_char(n % 10));
        assert(out@ =~= old(out)@ + dec(n as nat));
    }
}

/// Appends `n` in decimal, zero-padded to `w` digits.
fn push_dec_pad(out: &mut Vec<char>, n: u128, w: usize)
    ensures
        final(out)@ == old(out)@ + dec_pad(n as nat, w as nat),
{
    let mut d: Vec<char> = Vec::new();
    push_dec(&mut d, n);
    assert(d@ =~= dec(n as nat));
    if d.len() < w {
        let mut k: usize = d.len();
        while k < w
            invariant
                d@.len() <= k <= w,
                out@ == old(out)@ + Seq::new((k - d@.len()) as nat, |i: int| '0'),
            decreases w - k,
        {
            out.push('0');
            k = k + 1;
            assert(out@ =~= old(out)@ + Seq::new((k - d@.len()) as nat, |i: int| '0'));
        }
    }
    let ghost before = out@;
    let mut i: usize = 0;
    while i < d.len()
        invariant
            i <= d.len(),
            out@ == before + d@.take(i as int),
        decreases d.len() - i,
    {
        out.push(d[i]);
        i = i + 1;
        assert(out@ =~= before + d@.take(i as int));
    }
    assert(d@.take(d.len() as int) =~= d@);
    assert(out@ =~= old(out)@ + dec_pad(n as nat, w as nat));
}

/// `num / unit` to one decimal place, as a number of tenths: rounded to
/// the nearest tenth, a tie to the even tenth.
pub open spec fn tenths(num: nat, unit: nat) -> nat {
    let t = num * 10 / unit;
    let r = (num * 10) % unit;
    if 2 * r > unit || (2 * r == unit && t % 2 == 1) {
        t + 1
    } else {
        t
    }
}

/// `t` tenths as `whole.digit`.
pub open spec fn tenths_text(t: nat) -> Seq<char> {
    dec(t / 10) + "."@ + seq![digit((t % 10) as int)]
}

/// The status bar's size text: whole bytes below 1 KiB (`123B`), one
/// decimal of KiB below 1 MiB (`12.3KB`), one decimal of MiB above
/// (`1.5MB`).
pub open spec fn size_text(bytes: u64) -> Seq<char> {
    if bytes < 1024 {
        dec(bytes as nat) + "B"@
    } else if bytes < 1048576 {
        tenths_text(tenths(bytes as nat, 1024)) + "KB"@
    } else {
        tenths_text(tenths(bytes as nat, 1048576)) + "MB"@
    }
}

fn tenths_exec(num: u64, unit: u64) -> (r: u128)
    requires
        unit > 0,
    ensures
        r == tenths(num as nat, unit as nat),
{
    let n = (num as u128) * 10;
    let u = unit as u128;
    let t = n / u;
    let r = n % u;
    if 2 * r > u || (2 * r == u && t % 2 == 1) {
        t + 1
    } else {
        t
    }
}

fn push_tenths(out: &mut Vec<char>, t: u128)
    ensures
        final(out)@ == old(out)@ + tenths_text(t as nat),
{
    push_dec(out, t / 10);
    out.push('.');
    out.push(digit_char(t % 10));
    assert(out@ =~= old(out)@ + tenths_text(t as nat)) by {
        reveal_strlit(".");
    }
}

/// Human-readable byte size: `B` below 1 KiB, one decimal of `KB` below
/// 1 MiB, one decimal of `MB` above.
pub fn format_size(bytes: u64) -> (r: String)
    ensures
        r@ == size_text(bytes),
{
    let mut out: Vec<char> = Vec::new();
    if bytes < 1024 {
        push_dec(&mut out, bytes as u128);
        out.push('B');
        assert(out@ =~= size_text(bytes)) by {
            reveal_strlit("B");
        }
    } else if bytes < 1048576 {
        let t = tenths_exec(bytes, 1024);
        push_tenths(&mut out, t);
        out.push('K');
        out.push('B');
        assert(out@ =~= size_text(bytes)) by {
            reveal_strlit("KB");
        }
    } else {
        let t = tenths_exec(bytes, 1048576);
        push_tenths(&mut out, t);
        out.push('M');
        out.push('B');
        assert(out@ =~= size_text(bytes)) by {
            reveal_strlit("MB");
        }
    }
    string_of(out.as_slice())
}

/// `n` zero-padded to `w` digits, a minus sign counted in the width.
pub open spec fn signed_pad(n: int, w: nat) -> Seq<char> {
    if n >= 0 {
        dec_pad(n as nat, w)
    } else {
        seq!['-'] + dec_pad((-n) as nat, if w >= 1 { (w - 1) as nat } else { 0 })
    }
}

/// A civil date and time as `YYYY-MM-DD HH:MM`.
pub open spec fn ymd_hm_text(y: i64, mo: u32, d: u32, h: u32, mi: u32) -> Seq<char> {
    signed_pad(y as int, 4) + seq!['-'] + dec_pad(mo as nat, 2) + seq!['-'] + dec_pad(d as nat, 2)
        + seq![' '] + dec_pad(h as nat, 2) + seq![':'] + dec_pad(mi as nat, 2)
}

/// Formats a civil date and time as `YYYY-MM-DD HH:MM` (the status bar's
/// modification date).
pub fn format_ymd_hm(y: i64, mo: u32, d: u32, h: u32, mi: u32) -> (r: String)
    ensures
        r@ == ymd_hm_text(y, mo, d, h, mi),
{
    let mut out: Vec<char> = Vec::new();
    if y >= 0 {
        push_dec_pad(&mut out, y as u128, 4);
    } else {
        out.push('-');
        let m: u128 = if y == i64::MIN { 9223372036854775808u128 } else { (-y) as u128 };
        push_dec_pad(&mut out, m, 3);
    }
    let ghost a = out@;
    assert(a =~= signed_pad(y as int, 4));
    out.push('-');
    push_dec_pad(&mut out, mo as u128, 2);
    out.push('-');
    push_dec_pad(&mut out, d as u128, 2);
    out.push(' ');
    push_dec_pad(&mut out, h as u128, 2);
    out.push(':');
    push_dec_pad(&mut out, mi as u128, 2);
    assert(out@ =~= ymd_hm_text(y, mo, d, h, mi));
    string_of(out.as_slice())
}

/// `(year, month, day, hour, minute)` in UTC of `secs` seconds since the
/// epoch, by the civil-from-days algorithm on the proleptic Gregorian
/// calendar (eras of 400 years starting on March 1st).
pub open spec fn civil_of(secs: int) -> (int, int, int, int, int) {
    let days = secs / 86400;
    let rem = secs % 86400;
    let z = days + 719468;
    let era = z / 146097;
    let doe = z - era * 146097;
    let yoe = (doe - doe / 1460 + doe / 36524 - doe / 146096) / 365;
    let doy = doe - (365 * yoe + yoe / 4 - yoe / 100);
    let mp = (5 * doy + 2) / 153;
    let d = doy - (153 * mp + 2) / 5 + 1;
    let m = if mp < 10 { mp + 3 } else { mp - 9 };
    let y = yoe + era * 400 + (if m <= 2 { 1int } else { 0int });
    (y, m, d, rem / 3600, (rem % 3600) / 60)
}

/// Floor division and its non-negative remainder, for a positive divisor.
fn div_floor(a: i64, b: i64) -> (r: (i64, i64))
    requires
        2 <= b <= 146097,
    ensures
        r.0 == a / b,
        r.1 == a % b,
{
    if a >= 0 {
        let q = ((a as u64) / (b as u64)) as i64;
        let m = ((a as u64) % (b as u64)) as i64;
        assert(q == a / b && m == a % b) by (nonlinear_arith)
            requires
                a >= 0,
                b > 0,
                q == (a as int) / (b as int),
                m == (a as int) % (b as int),
        ;
        (q, m)
    } else {
        let u: u64 = if a == i64::MIN { 9223372036854775808u64 } else { (-a) as u64 };
        let t = u + (b as u64) - 1;
        let c = t / (b as u64);
        proof {
            vstd::arithmetic::div_mod::lemma_fundamental_div_mod(t as int, b as int);
            vstd::arithmetic::div_mod::lemma_mod_pos_bound(t as int, b as int);
            assert(b * c <= t);
            assert(b * c > t - b);
            assert(c < 0x4000_0000_0010_0000) by (nonlinear_arith)
                requires
                    b * c <= t,
                    b >= 2,
                    c >= 0,
                    t < 0x8000_0000_0010_0000,
            ;
        }
        let q: i64 = -(c as i64);
        let m: i64 = ((b as u64) * c - u) as i64;
        proof {
            assert((q as int) * (b as int) + (m as int) == a as int) by (nonlinear_arith)
                requires
                    q == -(c as int),
                    m == (b as int) * (c as int) - (u as int),
                    a == -(u as int),
            ;
            vstd::arithmetic::div_mod::lemma_fundamental_div_mod_converse(a as int, b as int, q as int, m as int);
        }
        (q, m)
    }
}

/// Seconds since the epoch to `(year, month, day, hour, minute)` in UTC.
pub fn utc_ymd_hms(secs: i64) -> (r: (i64, u32, u32, u32, u32))
    ensures
        (r.0 as int, r.1 as int, r.2 as int, r.3 as int, r.4 as int) == civil_of(secs as int),
{
    let (days, rem) = div_floor(secs, 86400);
    let z = days + 719468;
    let (era, doe) = div_floor(z, 146097);
    assert(doe == z - era * 146097) by (nonlinear_arith)
        requires
            era == z / 146097,
            doe == z % 146097,
    ;
    let doe = doe as u64;
    let yoe = (doe - doe / 1460 + doe / 36524 - doe / 146096) / 365;
    let y = (yoe as i64) + era * 400;
    let doy = doe - (365 * yoe + yoe / 4 - yoe / 100);
    let mp = (5 * doy + 2) / 153;
    let d = (doy - (153 * mp + 2) / 5 + 1) as u32;
    let m = (if mp < 10 { mp + 3 } else { mp - 9 }) as u32;
    let y = if m <= 2 { y + 1 } else { y };
    (y, m, d, (rem / 3600) as u32, ((rem % 3600) / 60) as u32)
}


/// Result of `String::from_utf8_lossy`.
pub uninterp spec fn lossy_text(bytes: Seq<u8>) -> Seq<char>;

/// `String::from_utf8_lossy`: the bytes as text, each invalid sequence
/// replaced by U+FFFD. The text depends on the bytes alone and is named.
#[verifier::external_body]
fn decode_lossy(bytes: &[u8]) -> (r: String)
    ensures
        r@ == lossy_text(bytes@),
{
    String::from_utf8_lossy(bytes).into_owned()
}

/// The view a finished file read gives: `Missing` when nothing was there,
/// `ReadError` with the error's text when it could not be read, otherwise
/// the text rendered at the panel's inner width with its size in bytes,
/// its line count and its modification time.
pub open spec fn read_view_ok(path: PathBuf, read: FileRead, v: DocView) -> bool {
    match read {
        FileRead::Missing => v == DocView::Missing(path),
        FileRead::Failed(msg) => v == (DocView::ReadError { path, msg }),
        FileRead::Bytes { bytes, modified } => match v {
            DocView::Rendered { path: p, r, meta } => {
                &&& p == path
                &&& rendered_ok(r)
                &&& tied_to(r, source_events(lossy_text(bytes@)))
                &&& meta.modified == modified
                &&& meta.size == bytes@.len()
                &&& meta.lines == lines(lossy_text(bytes@)).len()
            },
            _ => false,
        },
    }
}

/// Turns what reading `path` gave into the doc panel's view; `width` is
/// the panel's outer width.
pub fn doc_from_read(path: PathBuf, read: FileRead, width: u16) -> (r: DocView)
    ensures
        read_view_ok(path, read, r),
{
    match read {
        FileRead::Missing => DocView::Missing(path),
        FileRead::Failed(msg) => DocView::ReadError { path, msg },
        FileRead::Bytes { bytes, modified } => {
            let content = decode_lossy(bytes.as_slice());
            let cs = chars_of(content.as_str());
            let ls = lines_of(cs.as_slice());
            let n = ls.len();
            let size = bytes.len() as u64;
            let r = render(content.as_str(), panel_inner_width(width));
            DocView::Rendered { path, r, meta: FileInfo { modified, size, lines: n } }
        },
    }
}

/// The notice shown for a spec without a definition section.
pub open spec fn no_definition_text() -> Seq<char> {
    "정의 없음"@
}

/// A spec's definition view: its `spec.json` error, or its definition
/// section (or the notice that it has none) rendered, with the headings
/// and footnotes of that text.
pub open spec fn definition_view_ok(spec: Spec, v: DocView) -> bool {
    match spec.meta {
        Err(e) => v matches DocView::MetaError { spec: n, msg } && n == spec.name && msg@ == meta_error_text(e@),
        Ok(_) => v matches DocView::Definition { spec: n, text } && n == spec.name && rendered_ok(text) && tied_to(
            text,
            source_events(
                match spec.definition {
                    Some(d) => d@,
                    None => no_definition_text(),
                },
            ),
        ),
    }
}

/// The doc panel's view of a spec node; `width` is the panel's outer
/// width.
pub fn load_definition(spec: &Spec, width: u16) -> (r: DocView)
    ensures
        definition_view_ok(*spec, r),
{
    match &spec.meta {
        Err(e) => DocView::MetaError { spec: spec.name.clone(), msg: e.message() },
        Ok(_) => {
            let text = match &spec.definition {
                Some(d) => render(d.as_str(), panel_inner_width(width)),
                None => render("정의 없음", panel_inner_width(width)),
            };
            DocView::Definition { spec: spec.name.clone(), text }
        },
    }
}

/// Where a tree selection leads: a view ready to show, or a file to read
/// first.
pub enum Resolved {
    Show(DocView),
    Read(PathBuf),
}

/// The first spec of that name.
pub open spec fn spec_named(specs: Seq<Spec>, name: Seq<char>) -> Option<int>
    decreases specs.len(),
{
    if specs.len() == 0 {
        None
    } else if specs[0].name@ == name {
        Some(0)
    } else {
        match spec_named(specs.drop_first(), name) {
            Some(i) => Some(i + 1),
            None => None,
        }
    }
}

/// The first steering document of that name.
pub open spec fn steering_named(docs: Seq<SteeringDoc>, name: Seq<char>) -> Option<int>
    decreases docs.len(),
{
    if docs.len() == 0 {
        None
    } else if docs[0].name@ == name {
        Some(0)
    } else {
        match steering_named(docs.drop_first(), name) {
            Some(i) => Some(i + 1),
            None => None,
        }
    }
}

/// The first document slot of that kind.
pub open spec fn doc_of_kind(docs: Seq<DocEntry>, k: DocKindV) -> Option<int>
    decreases docs.len(),
{
    if docs.len() == 0 {
        None
    } else if docs[0].kind@ == k {
        Some(0)
    } else {
        match doc_of_kind(docs.drop_first(), k) {
            Some(i) => Some(i + 1),
            None => None,
        }
    }
}

/// Result of `str`'s `Debug` formatting: the text in double quotes, with
/// quotes, backslashes and unprintable characters escaped.
pub uninterp spec fn str_debug_text(s: Seq<char>) -> Seq<char>;

/// `format!("{:?}", s)` on a `str`. The text depends on `s` alone and is
/// named, not spelled out.
#[verifier::external_body]
fn str_debug(s: &str) -> (r: String)
    ensures
        r@ == str_debug_text(s@),
{
    format!("{s:?}")
}

/// The label of a document kind: the variant's name, and for `Other` its
/// name quoted and escaped in brackets, `Other("notes")`.
pub open spec fn kind_label_text(k: DocKindV) -> Seq<char> {
    match k {
        DocKindV::Requirements => "Requirements"@,
        DocKindV::Bugfix => "Bugfix"@,
        DocKindV::BizProcess => "BizProcess"@,
        DocKindV::Design => "Design"@,
        DocKindV::Tasks => "Tasks"@,
        DocKindV::Research => "Research"@,
        DocKindV::Other(name) => "Other("@ + str_debug_text(name) + ")"@,
    }
}

/// The label under which a missing document of kind `k` is shown.
pub fn kind_label(k: &DocKind) -> (r: String)
    ensures
        r@ == kind_label_text(k@),
{
    match k {
        DocKind::Requirements => "Requirements".to_owned(),
        DocKind::Bugfix => "Bugfix".to_owned(),
        DocKind::BizProcess => "BizProcess".to_owned(),
        DocKind::Design => "Design".to_owned(),
        DocKind::Tasks => "Tasks".to_owned(),
        DocKind::Research => "Research".to_owned(),
        DocKind::Other(name) => {
            let head = chars_of("Other(");
            let body = chars_of(str_debug(name.as_str()).as_str());
            let tail = chars_of(")");
            let a = concat(head.as_slice(), body.as_slice());
            string_of(concat(a.as_slice(), tail.as_slice()).as_slice())
        },
    }
}

/// What selecting a spec node (`kind` none) or one of its document slots
/// shows: the spec's definition view; the slot's file; a missing document
/// at a made-up path for a kind the spec has no slot for.
pub open spec fn selection_ok(spec: Spec, kind: Option<DocKindV>, r: Resolved) -> bool {
    match kind {
        None => r matches Resolved::Show(v) && definition_view_ok(spec, v),
        Some(k) => match doc_of_kind(spec.docs@, k) {
            Some(j) => r == Resolved::Read(spec.docs@[j].path),
            None => r == Resolved::Show(DocView::Missing(joined_path(spec.dir, kind_label_text(k)))),
        },
    }
}

pub open spec fn opt_kind(k: Option<&DocKind>) -> Option<DocKindV> {
    match k {
        Some(x) => Some(x@),
        None => None,
    }
}

/// Opens a spec node or one of its document slots; `width` is the doc
/// panel's outer width.
pub fn load_for_selection(spec: &Spec, kind: Option<&DocKind>, width: u16) -> (r: Resolved)
    ensures
        selection_ok(*spec, opt_kind(kind), r),
{
    match kind {
        None => Resolved::Show(load_definition(spec, width)),
        Some(k) => match find_kind(&spec.docs, k) {
            Some(j) => Resolved::Read(spec.docs[j].path.clone()),
            None => {
                let label = kind_label(k);
                Resolved::Show(DocView::Missing(join_path(&spec.dir, label.as_str())))
            },
        },
    }
}

/// What selecting the node at the end of `path` shows: nothing for an
/// empty path, a folder or a stale node; a spec's definition view; the
/// file of a document slot, of a steering document or of a file node; a
/// missing document at a made-up path for a slot kind the spec lacks.
pub open spec fn resolved_ok(root: TreeSource, path: Seq<NodeId>, r: Resolved) -> bool {
    if path.len() == 0 {
        r == Resolved::Show(DocView::Empty)
    } else {
        match (root, path.last()) {
            (TreeSource::Kiro(kr), NodeId::Spec(name)) => match spec_named(kr.specs@, name@) {
                Some(i) => selection_ok(kr.specs@[i], None, r),
                None => r == Resolved::Show(DocView::Empty),
            },
            (TreeSource::Kiro(kr), NodeId::Doc(name, kind)) => match spec_named(kr.specs@, name@) {
                Some(i) => selection_ok(kr.specs@[i], Some(kind@), r),
                None => r == Resolved::Show(DocView::Empty),
            },
            (TreeSource::Kiro(kr), NodeId::Steering(name)) => match steering_named(kr.steering@, name@) {
                Some(i) => r == Resolved::Read(kr.steering@[i].path),
                None => r == Resolved::Show(DocView::Empty),
            },
            (TreeSource::Files(_), NodeId::File(p)) => r == Resolved::Read(p),
            _ => r == Resolved::Show(DocView::Empty),
        }
    }
}

pub fn find_spec(specs: &Vec<Spec>, name: &String) -> (r: Option<usize>)
    ensures
        match r {
            Some(i) => spec_named(specs@, name@) == Some(i as int) && i < specs@.len(),
            None => spec_named(specs@, name@) is None,
        },
{
    let mut i: usize = 0;
    assert(specs@.skip(0) =~= specs@);
    while i < specs.len()
        invariant
            i <= specs.len(),
            spec_named(specs@, name@) == (match spec_named(specs@.skip(i as int), name@) {
                Some(k) => Some(k + i),
                None => None,
            }),
        decreases specs.len() - i,
    {
        assert(specs@.skip(i as int).drop_first() =~= specs@.skip(i + 1));
        if specs[i].name == *name {
            return Some(i);
        }
        i = i + 1;
    }
    None
}

fn find_steering(docs: &Vec<SteeringDoc>, name: &String) -> (r: Option<usize>)
    ensures
        match r {
            Some(i) => steering_named(docs@, name@) == Some(i as int) && i < docs@.len(),
            None => steering_named(docs@, name@) is None,
        },
{
    let mut i: usize = 0;
    assert(docs@.skip(0) =~= docs@);
    while i < docs.len()
        invariant
            i <= docs.len(),
            steering_named(docs@, name@) == (match steering_named(docs@.skip(i as int), name@) {
                Some(k) => Some(k + i),
                None => None,
            }),
        decreases docs.len() - i,
    {
        assert(docs@.skip(i as int).drop_first() =~= docs@.skip(i + 1));
        if docs[i].name == *name {
            return Some(i);
        }
        i = i + 1;
    }
    None
}

fn find_kind(docs: &Vec<DocEntry>, k: &DocKind) -> (r: Option<usize>)
    ensures
        match r {
            Some(i) => doc_of_kind(docs@, k@) == Some(i as int) && i < docs@.len(),
            None => doc_of_kind(docs@, k@) is None,
        },
{
    let mut i: usize = 0;
    assert(docs@.skip(0) =~= docs@);
    while i < docs.len()
        invariant
            i <= docs.len(),
            doc_of_kind(docs@, k@) == (match doc_of_kind(docs@.skip(i as int), k@) {
                Some(j) => Some(j + i),
                None => None,
            }),
        decreases docs.len() - i,
    {
        assert(docs@.skip(i as int).drop_first() =~= docs@.skip(i + 1));
        if docs[i].kind.same(k) {
            return Some(i);
        }
        i = i + 1;
    }
    None
}

/// Resolves a tree selection path to what the doc panel should show;
/// `width` is the panel's outer width.
pub fn resolve_selection(root: &TreeSource, path: &Vec<NodeId>, width: u16) -> (r: Resolved)
    ensures
        resolved_ok(*root, path@, r),
{
    if path.len() == 0 {
        return Resolved::Show(DocView::Empty);
    }
    let last = &path[path.len() - 1];
    match (root, last) {
        (TreeSource::Kiro(kr), NodeId::Spec(name)) => match find_spec(&kr.specs, name) {
            Some(i) => load_for_selection(&kr.specs[i], None, width),
            None => Resolved::Show(DocView::Empty),
        },
        (TreeSource::Kiro(kr), NodeId::Doc(name, kind)) => match find_spec(&kr.specs, name) {
            Some(i) => load_for_selection(&kr.specs[i], Some(kind), width),
            None => Resolved::Show(DocView::Empty),
        },
        (TreeSource::Kiro(kr), NodeId::Steering(name)) => match find_steering(&kr.steering, name) {
            Some(i) => Resolved::Read(kr.steering[i].path.clone()),
            None => Resolved::Show(DocView::Empty),
        },
        (TreeSource::Files(_), NodeId::File(p)) => Resolved::Read(p.clone()),
        _ => Resolved::Show(DocView::Empty),
    }
}

/// Whether every file of a snapshot is short enough for the spec model's
/// counters.
pub fn snapshot_countable(snapshot: &DirSnapshot) -> (r: bool)
    ensures
        r == (forall|i: int| 0 <= i < snapshot@.specs.len() ==> countable(#[trigger] snapshot@.specs[i].files)),
{
    let mut i: usize = 0;
    while i < snapshot.specs.len()
        invariant
            i <= snapshot.specs.len(),
            forall|k: int| 0 <= k < i ==> countable(#[trigger] snapshot@.specs[k].files),
        decreases snapshot.specs.len() - i,
    {
        let files = &snapshot.specs[i].files;
        assert(snapshot@.specs[i as int] == snapshot.specs@[i as int]@);
        let mut j: usize = 0;
        while j < files.len()
            invariant
                j <= files.len(),
                files == snapshot.specs@[i as int].files,
                i < snapshot.specs.len(),
                snapshot@.specs[i as int] == snapshot.specs@[i as int]@,
                forall|t: int| 0 <= t < j ==> #[trigger] files_view(files@)[t].content.len() <= u32::MAX,
            decreases files.len() - j,
        {
            let n = files[j].content.as_str().unicode_len();
            assert(snapshot@.specs[i as int].files == files_view(files@));
            assert(files_view(files@)[j as int] == files@[j as int]@);
            if n > 4294967295usize {
                assert(snapshot@.specs[i as int].files[j as int].content.len() > u32::MAX);
                assert(!countable(snapshot@.specs[i as int].files));
                return false;
            }
            j = j + 1;
        }
        assert(snapshot@.specs[i as int].files == files_view(files@));
        assert(countable(snapshot@.specs[i as int].files));
        i = i + 1;
    }
    true
}
} // verus!
