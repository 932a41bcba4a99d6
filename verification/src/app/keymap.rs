//! The key table: which key dispatches which reducer action, and the help
//! listing built from the same table.

use vstd::prelude::*;
use crate::text::{chars_of, concat, string_of};

verus! {

/// A physical key, as far as the key table tells keys apart.
#[derive(Debug, Clone, Copy, PartialEq, Eq, Structural)]
pub enum Key {
    Char(char),
    Tab,
    Enter,
    Esc,
    Up,
    Down,
    Left,
    Right,
    PageUp,
    PageDown,
    Home,
    End,
    Backspace,
    /// Any key the table has no use for.
    Other,
}

/// One binding: the keys that trigger it, the action they dispatch and the
/// help text shown for it.
pub struct Binding {
    pub keys: Vec<Key>,
    pub action: &'static str,
    pub help: &'static str,
}

pub struct BindingV {
    pub keys: Seq<Key>,
    pub action: Seq<char>,
    pub help: Seq<char>,
}

impl View for Binding {
    type V = BindingV;

    open spec fn view(&self) -> BindingV {
        BindingV { keys: self.keys@, action: self.action@, help: self.help@ }
    }
}

pub open spec fn bv(keys: Seq<Key>, action: &'static str, help: &'static str) -> BindingV {
    BindingV { keys, action: action@, help: help@ }
}

/// The key table, in help-listing order.
pub open spec fn binding_table() -> Seq<BindingV> {
    seq![
        bv(seq![Key::Char('q')], "quit", "종료"),
        bv(seq![Key::Tab], "switch_panel", "패널 전환 (트리 <-> 문서)"),
        bv(seq![Key::Char('j')], "line_down", "한 줄 아래로 스크롤"),
        bv(seq![Key::Char('k')], "line_up", "한 줄 위로 스크롤"),
        bv(seq![Key::Char('d')], "half_page_down", "반 화면 아래로 스크롤"),
        bv(seq![Key::Char('u')], "half_page_up", "반 화면 위로 스크롤"),
        bv(seq![Key::PageDown, Key::Char('f')], "page_down", "한 화면 아래로 스크롤"),
        bv(seq![Key::PageUp, Key::Char('b')], "page_up", "한 화면 위로 스크롤"),
        bv(seq![Key::Char('g'), Key::Home], "top", "문서 처음으로 이동"),
        bv(seq![Key::Char('G'), Key::End], "bottom", "문서 끝으로 이동"),
        bv(seq![Key::Char('[')], "prev_heading", "이전 헤딩으로 이동"),
        bv(seq![Key::Char(']')], "next_heading", "다음 헤딩으로 이동"),
        bv(seq![Key::Enter], "select", "선택한 트리 노드를 문서 패널에 로드"),
        bv(seq![Key::Char('?')], "help", "도움말 표시"),
        bv(seq![Key::Char('n')], "next_match", "다음 검색 결과로 이동 (포커스한 패널의 검색)"),
        bv(seq![Key::Char('N')], "prev_match", "이전 검색 결과로 이동 (포커스한 패널의 검색)"),
        bv(seq![Key::Up], "nav_up", "트리: 위 노드로 이동 / 문서: 한 줄 위로 스크롤 (활성 패널 기준)"),
        bv(seq![Key::Down], "nav_down", "트리: 아래 노드로 이동 / 문서: 한 줄 아래로 스크롤 (활성 패널 기준)"),
        bv(seq![Key::Left], "nav_left", "트리 노드 접기 / 상위 노드로 이동"),
        bv(seq![Key::Right], "nav_right", "트리 노드 펼치기"),
        bv(seq![Key::Char('r')], "refresh", "수동으로 새로고침 (감시 불가 시 사용)"),
        bv(seq![Key::Char('t')], "open_toc", "목차(TOC) 열기"),
        bv(seq![Key::Char('/')], "open_search", "검색 (포커스한 패널 기준: 문서 내용 또는 트리 노드 이름)"),
        bv(seq![Key::Char('T')], "toggle_tree", "트리 패널 표시/숨김 전환 (--tree always 에서는 무시됨)"),
        bv(seq![Key::Char('1')], "layout_auto", "레이아웃: 자동 (폭에 따라 2패널/단일)"),
        bv(seq![Key::Char('2')], "layout_fold", "레이아웃: 좌측 접기 (문서만)"),
        bv(seq![Key::Char('3')], "layout_expand", "레이아웃: 좌측 펼치기 (트리+문서 고정)"),
        bv(seq![Key::Char('4')], "layout_single", "레이아웃: 단일 모드 (문서 선택 시 문서 전체 폭, Esc 로 트리 복귀)"),
        bv(seq![Key::Char('s')], "cycle_sort", "스펙 트리 정렬 키 순환 (이름 -> phase -> 최근 갱신 -> 진행률)"),
    ]
}

fn b(keys: Vec<Key>, action: &'static str, help: &'static str) -> (r: Binding)
    ensures
        r@ == bv(keys@, action, help),
{
    Binding { keys, action, help }
}

fn k1(a: Key) -> (r: Vec<Key>)
    ensures
        r@ == seq![a],
{
    let mut r = Vec::new();
    r.push(a);
    assert(r@ =~= seq![a]);
    r
}

fn k2(a: Key, c: Key) -> (r: Vec<Key>)
    ensures
        r@ == seq![a, c],
{
    let mut r = Vec::new();
    r.push(a);
    r.push(c);
    assert(r@ =~= seq![a, c]);
    r
}

/// The key table.
pub fn bindings() -> (r: Vec<Binding>)
    ensures
        r@.map_values(|x: Binding| x@) == binding_table(),
{
    let mut r: Vec<Binding> = Vec::new();
    r.push(b(k1(Key::Char('q')), "quit", "종료"));
    assert(r@[0]@ == binding_table()[0]);
    r.push(b(k1(Key::Tab), "switch_panel", "패널 전환 (트리 <-> 문서)"));
    assert(r@[1]@ == binding_table()[1]);
    r.push(b(k1(Key::Char('j')), "line_down", "한 줄 아래로 스크롤"));
    assert(r@[2]@ == binding_table()[2]);
    r.push(b(k1(Key::Char('k')), "line_up", "한 줄 위로 스크롤"));
    assert(r@[3]@ == binding_table()[3]);
    r.push(b(k1(Key::Char('d')), "half_page_down", "반 화면 아래로 스크롤"));
    assert(r@[4]@ == binding_table()[4]);
    r.push(b(k1(Key::Char('u')), "half_page_up", "반 화면 위로 스크롤"));
    assert(r@[5]@ == binding_table()[5]);
    r.push(b(k2(Key::PageDown, Key::Char('f')), "page_down", "한 화면 아래로 스크롤"));
    assert(r@[6]@ == binding_table()[6]);
    r.push(b(k2(Key::PageUp, Key::Char('b')), "page_up", "한 화면 위로 스크롤"));
    assert(r@[7]@ == binding_table()[7]);
    r.push(b(k2(Key::Char('g'), Key::Home), "top", "문서 처음으로 이동"));
    assert(r@[8]@ == binding_table()[8]);
    r.push(b(k2(Key::Char('G'), Key::End), "bottom", "문서 끝으로 이동"));
    assert(r@[9]@ == binding_table()[9]);
    r.push(b(k1(Key::Char('[')), "prev_heading", "이전 헤딩으로 이동"));
    assert(r@[10]@ == binding_table()[10]);
    r.push(b(k1(Key::Char(']')), "next_heading", "다음 헤딩으로 이동"));
    assert(r@[11]@ == binding_table()[11]);
    r.push(b(k1(Key::Enter), "select", "선택한 트리 노드를 문서 패널에 로드"));
    assert(r@[12]@ == binding_table()[12]);
    r.push(b(k1(Key::Char('?')), "help", "도움말 표시"));
    assert(r@[13]@ == binding_table()[13]);
    r.push(b(k1(Key::Char('n')), "next_match", "다음 검색 결과로 이동 (포커스한 패널의 검색)"));
    assert(r@[14]@ == binding_table()[14]);
    r.push(b(k1(Key::Char('N')), "prev_match", "이전 검색 결과로 이동 (포커스한 패널의 검색)"));
    assert(r@[15]@ == binding_table()[15]);
    r.push(b(k1(Key::Up), "nav_up", "트리: 위 노드로 이동 / 문서: 한 줄 위로 스크롤 (활성 패널 기준)"));
    assert(r@[16]@ == binding_table()[16]);
    r.push(b(k1(Key::Down), "nav_down", "트리: 아래 노드로 이동 / 문서: 한 줄 아래로 스크롤 (활성 패널 기준)"));
    assert(r@[17]@ == binding_table()[17]);
    r.push(b(k1(Key::Left), "nav_left", "트리 노드 접기 / 상위 노드로 이동"));
    assert(r@[18]@ == binding_table()[18]);
    r.push(b(k1(Key::Right), "nav_right", "트리 노드 펼치기"));
    assert(r@[19]@ == binding_table()[19]);
    r.push(b(k1(Key::Char('r')), "refresh", "수동으로 새로고침 (감시 불가 시 사용)"));
    assert(r@[20]@ == binding_table()[20]);
    r.push(b(k1(Key::Char('t')), "open_toc", "목차(TOC) 열기"));
    assert(r@[21]@ == binding_table()[21]);
    r.push(b(k1(Key::Char('/')), "open_search", "검색 (포커스한 패널 기준: 문서 내용 또는 트리 노드 이름)"));
    assert(r@[22]@ == binding_table()[22]);
    r.push(b(k1(Key::Char('T')), "toggle_tree", "트리 패널 표시/숨김 전환 (--tree always 에서는 무시됨)"));
    assert(r@[23]@ == binding_table()[23]);
    r.push(b(k1(Key::Char('1')), "layout_auto", "레이아웃: 자동 (폭에 따라 2패널/단일)"));
    assert(r@[24]@ == binding_table()[24]);
    r.push(b(k1(Key::Char('2')), "layout_fold", "레이아웃: 좌측 접기 (문서만)"));
    assert(r@[25]@ == binding_table()[25]);
    r.push(b(k1(Key::Char('3')), "layout_expand", "레이아웃: 좌측 펼치기 (트리+문서 고정)"));
    assert(r@[26]@ == binding_table()[26]);
    r.push(b(k1(Key::Char('4')), "layout_single", "레이아웃: 단일 모드 (문서 선택 시 문서 전체 폭, Esc 로 트리 복귀)"));
    assert(r@[27]@ == binding_table()[27]);
    r.push(b(k1(Key::Char('s')), "cycle_sort", "스펙 트리 정렬 키 순환 (이름 -> phase -> 최근 갱신 -> 진행률)"));
    assert(r@[28]@ == binding_table()[28]);
    proof {
        let t = binding_table();
        let v = r@.map_values(|x: Binding| x@);
        assert(v.len() == t.len());
        assert forall|i: int| 0 <= i < t.len() implies v[i] == t[i] by {
            assert(v[i] == r@[i]@);
        }
        assert(v =~= t);
    }
    r
}

/// The action of the first binding listing `key`.
pub open spec fn action_in(t: Seq<BindingV>, key: Key) -> Option<Seq<char>>
    decreases t.len(),
{
    if t.len() == 0 {
        None
    } else if t[0].keys.contains(key) {
        Some(t[0].action)
    } else {
        action_in(t.drop_first(), key)
    }
}

fn has_key(keys: &Vec<Key>, key: Key) -> (r: bool)
    ensures
        r == keys@.contains(key),
{
    let mut i: usize = 0;
    while i < keys.len()
        invariant
            i <= keys.len(),
            forall|j: int| 0 <= j < i ==> keys@[j] != key,
        decreases keys.len() - i,
    {
        if keys[i] == key {
            return true;
        }
        i = i + 1;
    }
    false
}

/// The action a key dispatches, whatever modifiers came with it; `None`
/// for a key no binding lists.
pub fn action_for_key(key: Key) -> (r: Option<&'static str>)
    ensures
        match r {
            Some(a) => action_in(binding_table(), key) == Some(a@),
            None => action_in(binding_table(), key) is None,
        },
{
    let t = bindings();
    let ghost tv = t@.map_values(|x: Binding| x@);
    let mut i: usize = 0;
    assert(tv.subrange(0, tv.len() as int) =~= tv);
    while i < t.len()
        invariant
            i <= t.len(),
            tv == t@.map_values(|x: Binding| x@),
            tv == binding_table(),
            action_in(tv, key) == action_in(tv.subrange(i as int, tv.len() as int), key),
        decreases t.len() - i,
    {
        let ghost rest = tv.subrange(i as int, tv.len() as int);
        assert(rest.drop_first() =~= tv.subrange(i + 1, tv.len() as int));
        if has_key(&t[i].keys, key) {
            return Some(t[i].action);
        }
        i = i + 1;
    }
    None
}

/// A key's label in the help listing.
pub open spec fn key_text(k: Key) -> Seq<char> {
    match k {
        Key::Char(c) => seq![c],
        Key::Up => "Up"@,
        Key::Down => "Down"@,
        Key::Left => "Left"@,
        Key::Right => "Right"@,
        Key::PageUp => "PageUp"@,
        Key::PageDown => "PageDown"@,
        Key::Home => "Home"@,
        Key::End => "End"@,
        Key::Enter => "Enter"@,
        Key::Tab => "Tab"@,
        Key::Esc => "Esc"@,
        Key::Backspace => "Backspace"@,
        Key::Other => "Other"@,
    }
}

/// The labels of a binding's keys joined with `/`.
pub open spec fn keys_text(ks: Seq<Key>) -> Seq<char>
    decreases ks.len(),
{
    if ks.len() == 0 {
        Seq::empty()
    } else if ks.len() == 1 {
        key_text(ks[0])
    } else {
        keys_text(ks.drop_last()) + "/"@ + key_text(ks.last())
    }
}

fn key_code_label(k: Key) -> (r: Vec<char>)
    ensures
        r@ == key_text(k),
{
    match k {
        Key::Char(c) => vec![c],
        Key::Up => chars_of("Up"),
        Key::Down => chars_of("Down"),
        Key::Left => chars_of("Left"),
        Key::Right => chars_of("Right"),
        Key::PageUp => chars_of("PageUp"),
        Key::PageDown => chars_of("PageDown"),
        Key::Home => chars_of("Home"),
        Key::End => chars_of("End"),
        Key::Enter => chars_of("Enter"),
        Key::Tab => chars_of("Tab"),
        Key::Esc => chars_of("Esc"),
        Key::Backspace => chars_of("Backspace"),
        Key::Other => chars_of("Other"),
    }
}

fn key_label(bd: &Binding) -> (r: String)
    ensures
        r@ == keys_text(bd.keys@),
{
    let mut out: Vec<char> = Vec::new();
    let slash = chars_of("/");
    let mut i: usize = 0;
    while i < bd.keys.len()
        invariant
            i <= bd.keys.len(),
            slash@ == "/"@,
            out@ == keys_text(bd.keys@.take(i as int)),
        decreases bd.keys.len() - i,
    {
        assert(bd.keys@.take(i + 1).drop_last() =~= bd.keys@.take(i as int));
        if i > 0 {
            out = concat(out.as_slice(), slash.as_slice());
        }
        let l = key_code_label(bd.keys[i]);
        out = concat(out.as_slice(), l.as_slice());
        proof {
            if i == 0 {
                assert(out@ =~= key_text(bd.keys@.take(1)[0]));
            }
        }
        i = i + 1;
    }
    assert(bd.keys@.take(bd.keys.len() as int) =~= bd.keys@);
    string_of(out.as_slice())
}

/// The help listing: one `(keys, help text)` row per binding, in table
/// order, the keys written with `/` between them.
pub fn help_entries() -> (r: Vec<(String, String)>)
    ensures
        r@.len() == binding_table().len(),
        forall|i: int| 0 <= i < r@.len() ==> #[trigger] r@[i].0@ == keys_text(binding_table()[i].keys)
            && r@[i].1@ == binding_table()[i].help,
{
    let t = bindings();
    let ghost tv = t@.map_values(|x: Binding| x@);
    let mut out: Vec<(String, String)> = Vec::new();
    let mut i: usize = 0;
    while i < t.len()
        invariant
            i <= t.len(),
            tv == t@.map_values(|x: Binding| x@),
            tv == binding_table(),
            out@.len() == i,
            forall|j: int| 0 <= j < i ==> #[trigger] out@[j].0@ == keys_text(tv[j].keys) && out@[j].1@ == tv[j].help,
        decreases t.len() - i,
    {
        let label = key_label(&t[i]);
        let help = t[i].help.to_owned();
        out.push((label, help));
        i = i + 1;
    }
    out
}

} // verus!
