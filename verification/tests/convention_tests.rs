use csurename::convention::{underscore_spaces, CaseConvention};

#[test]
fn convert_by_convention() {
    let stem = "mY_wRong File-0";
    assert_eq!(CaseConvention::KebabCase.convert(stem), "m-y-w-rong-file-0");
    assert_eq!(CaseConvention::CamelCase.convert(stem), "mYWRongFile0");
    assert_eq!(CaseConvention::PascalCase.convert(stem), "MyWrongFile0");
    assert_eq!(CaseConvention::ScreamingSnakeCase.convert(stem), "M_Y_W_RONG_FILE_0");
    assert_eq!(CaseConvention::SentenceCase.convert(stem), "My_wrong_file0");
    assert_eq!(CaseConvention::SnakeCase.convert(stem), "m_y_w_rong_file_0");
    assert_eq!(CaseConvention::TitleCase.convert(stem), "My_Wrong_File0");
    assert_eq!(CaseConvention::TrainCase.convert(stem), "My-Wrong-File0");
}

#[test]
fn convert_empty_stem() {
    assert_eq!(CaseConvention::KebabCase.convert(""), "");
    assert_eq!(CaseConvention::TitleCase.convert(""), "");
    assert_eq!(CaseConvention::SnakeCase.convert("---"), "");
}

#[test]
fn spaces_become_underscores() {
    assert_eq!(underscore_spaces("a b  c"), "a_b__c");
    assert_eq!(underscore_spaces("none"), "none");
    assert_eq!(underscore_spaces(""), "");
    assert_eq!(underscore_spaces(" é "), "_é_");
}

#[test]
fn sentence_and_title_case_hold_no_blank() {
    assert_eq!(CaseConvention::SentenceCase.convert("foo bar baz"), "Foo_bar_baz");
    assert_eq!(CaseConvention::TitleCase.convert("foo bar baz"), "Foo_Bar_Baz");
}
