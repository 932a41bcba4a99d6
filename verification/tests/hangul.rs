use unicode_width::UnicodeWidthStr;
use spec_viewer::markdown::hangul::compose;


#[test]
fn composes_decomposed_hangul() {
    // "한글" 을 자소로 나눈 형태
    let nfd = "\u{1112}\u{1161}\u{11ab}\u{1100}\u{1173}\u{11af}";
    assert_eq!(compose(nfd), "한글");
}

#[test]
fn composes_syllable_without_final() {
    assert_eq!(compose("\u{1102}\u{1161}"), "나");
}

#[test]
fn attaches_final_to_precomposed_syllable() {
    // 가운뎃소리까지만 합쳐진 "가" + 끝소리 ㅁ
    assert_eq!(compose("가\u{11b7}"), "감");
}

#[test]
fn leaves_normal_text_untouched() {
    assert_eq!(compose("이미 정상입니다 abc 123"), "이미 정상입니다 abc 123");
    assert_eq!(compose(""), "");
}

#[test]
fn keeps_standalone_compatibility_jamo() {
    // ㄱ, ㅏ 는 낱자로 쓰이는 호환 자모이므로 합치지 않는다.
    assert_eq!(compose("ㄱㅏ"), "ㄱㅏ");
}

#[test]
fn keeps_lone_jamo_that_cannot_combine() {
    assert_eq!(compose("\u{1100}"), "\u{1100}");
    assert_eq!(compose("\u{11ab}가"), "\u{11ab}가");
}

#[test]
fn composed_text_has_correct_display_width() {
    let nfd = "\u{1112}\u{1161}\u{11ab}";
    assert_eq!(UnicodeWidthStr::width(compose(nfd).as_str()), 2);
}

#[test]
fn mixed_document_composes_only_hangul() {
    let nfd = "# \u{1112}\u{1161}\u{11ab} title\n\n- caf\u{e9}\n";
    assert_eq!(compose(nfd), "# 한 title\n\n- café\n");
}

#[test]
fn composing_twice_is_composing_once() {
    let src = "\u{1100}\u{1100}\u{1161}\u{11a8}\u{11a8} \u{1161}\u{11ab} 가\u{11b7}\u{11b7}";
    let once = compose(src);
    assert_eq!(compose(&once), once);
}
