use valgrind_suppressions::Frame;
use valgrind_suppressions::SuppressionType;
use valgrind_suppressions::Suppressions;

fn lines(ls: &[&str]) -> Vec<String> {
    ls.iter().map(|l| l.to_string()).collect()
}

#[test]
fn single_block_single_tool() {
    let input = lines(&[
        "{",
        "   my-leak",
        "   Memcheck:Leak",
        "   fun:malloc",
        "   ...",
        "   obj:/usr/lib/*.so",
        "}",
    ]);
    let s = Suppressions::parse(&input).unwrap();
    let recs = s.suppressions();
    assert_eq!(recs.len(), 1);
    let r = &recs[0];
    assert_eq!(r.name, "my-leak");
    assert_eq!(r.type_, SuppressionType::MemcheckLeak);
    assert!(r.opt_extra_info.is_none());
    assert_eq!(r.frames.len(), 3);
    assert!(matches!(&r.frames[0], Frame::FunFrame { glob } if glob == "malloc"));
    assert!(matches!(&r.frames[1], Frame::FrameWildcard));
    assert!(matches!(&r.frames[2], Frame::ObjFrame { glob } if glob == "/usr/lib/*.so"));
}

#[test]
fn two_tools_two_records_in_order() {
    let input = lines(&["{", "   n", "   ToolA,ToolB:Category", "   ...", "}"]);
    let s = Suppressions::parse(&input).unwrap();
    let recs = s.suppressions();
    assert_eq!(recs.len(), 2);
    assert_eq!(recs[0].name, "n");
    assert_eq!(recs[1].name, "n");
    assert_eq!(
        recs[0].type_,
        SuppressionType::OtherType {
            tool_name: "ToolA".to_string(),
            suppression_type: "Category".to_string(),
        }
    );
    assert_eq!(
        recs[1].type_,
        SuppressionType::OtherType {
            tool_name: "ToolB".to_string(),
            suppression_type: "Category".to_string(),
        }
    );
    assert_eq!(recs[0].frames.len(), 1);
    assert_eq!(recs[1].frames.len(), 1);
}

#[test]
fn empty_block_yields_no_records() {
    let input = lines(&["{", "}"]);
    let s = Suppressions::parse(&input).unwrap();
    assert_eq!(s.suppressions().len(), 0);
}

#[test]
fn missing_opening_brace_fails_at_line_one() {
    let input = lines(&["   foo"]);
    let e = Suppressions::parse(&input).unwrap_err();
    assert_eq!(e.lineno, 1);
    assert_eq!(e.message, "expecting an opening brace");
}

#[test]
fn unterminated_block_reports_opening_line_and_name() {
    let input = lines(&["{", "Name", "Memcheck:Leak"]);
    let e = Suppressions::parse(&input).unwrap_err();
    assert_eq!(e.lineno, 1);
    assert_eq!(
        e.message,
        "unexpectedly encountered EOF while parsing the suppression named 'Name'"
    );
}

#[test]
fn addr_and_value_carry_numeric_parameter() {
    let input = lines(&[
        "{", "   a", "   Memcheck:Addr4", "   ...", "}", "{", "   v", "   Memcheck:Value8",
        "   ...", "}",
    ]);
    let s = Suppressions::parse(&input).unwrap();
    let recs = s.suppressions();
    assert_eq!(recs.len(), 2);
    assert_eq!(recs[0].type_, SuppressionType::MemcheckAddr(4));
    assert_eq!(recs[1].type_, SuppressionType::MemcheckValue(8));
}

#[test]
fn addr_without_digits_falls_back_to_other() {
    let input = lines(&["{", "   a", "   Memcheck:Addr", "   ...", "}"]);
    let s = Suppressions::parse(&input).unwrap();
    assert_eq!(
        s.suppressions()[0].type_,
        SuppressionType::OtherType {
            tool_name: "Memcheck".to_string(),
            suppression_type: "Addr".to_string(),
        }
    );
}

#[test]
fn addr_with_bad_suffix_falls_back_to_other() {
    let input = lines(&["{", "   a", "   Memcheck:Addrx", "   ...", "}"]);
    let s = Suppressions::parse(&input).unwrap();
    assert_eq!(
        s.suppressions()[0].type_,
        SuppressionType::OtherType {
            tool_name: "Memcheck".to_string(),
            suppression_type: "Addrx".to_string(),
        }
    );
}

#[test]
fn addr_with_huge_suffix_falls_back_to_other() {
    let input = lines(&["{", "   a", "   Memcheck:Addr99999999999999999999999999", "   ...", "}"]);
    let s = Suppressions::parse(&input).unwrap();
    assert!(matches!(
        &s.suppressions()[0].type_,
        SuppressionType::OtherType { .. }
    ));
}

#[test]
fn addr_with_leading_zeros_still_numeric() {
    let input = lines(&["{", "   a", "   Memcheck:Addr004", "   ...", "}"]);
    let s = Suppressions::parse(&input).unwrap();
    assert_eq!(s.suppressions()[0].type_, SuppressionType::MemcheckAddr(4));
}

#[test]
fn fixed_memcheck_categories_resolve() {
    let input = lines(&[
        "{", "   c", "   Memcheck:Cond", "   ...", "}", "{", "   f", "   Memcheck:Free", "   ...",
        "}", "{", "   o", "   Memcheck:Overlap", "   ...", "}", "{", "   p", "   Memcheck:Param",
        "   write(buf)", "   ...", "}",
    ]);
    let s = Suppressions::parse(&input).unwrap();
    let recs = s.suppressions();
    assert_eq!(recs[0].type_, SuppressionType::MemcheckCond);
    assert_eq!(recs[1].type_, SuppressionType::MemcheckFree);
    assert_eq!(recs[2].type_, SuppressionType::MemcheckOverlap);
    assert_eq!(recs[3].type_, SuppressionType::MemcheckParam);
    assert_eq!(
        recs[3].opt_extra_info,
        Some(vec!["write(buf)".to_string()])
    );
}

#[test]
fn comments_and_blank_lines_are_skipped() {
    let input = lines(&[
        "# a comment",
        "",
        "   ",
        "{",
        "   n",
        "# inside too",
        "   Memcheck:Leak",
        "",
        "   ...",
        "}",
    ]);
    let s = Suppressions::parse(&input).unwrap();
    let recs = s.suppressions();
    assert_eq!(recs.len(), 1);
    assert_eq!(recs[0].name, "n");
    assert_eq!(recs[0].type_, SuppressionType::MemcheckLeak);
}

#[test]
fn block_without_frames_yields_record_with_empty_frames() {
    let input = lines(&["{", "   n", "   Memcheck:Leak", "}"]);
    let s = Suppressions::parse(&input).unwrap();
    let recs = s.suppressions();
    assert_eq!(recs.len(), 1);
    assert_eq!(recs[0].frames.len(), 0);
    assert!(recs[0].opt_extra_info.is_none());
}

#[test]
fn extra_info_lines_collected_in_order() {
    let input = lines(&["{", "   n", "   Memcheck:Param", "   one", "   two", "   ...", "}"]);
    let s = Suppressions::parse(&input).unwrap();
    let recs = s.suppressions();
    assert_eq!(
        recs[0].opt_extra_info,
        Some(vec!["one".to_string(), "two".to_string()])
    );
}

#[test]
fn opening_brace_must_stand_alone() {
    let input = lines(&["{ junk"]);
    let e = Suppressions::parse(&input).unwrap_err();
    assert_eq!(e.lineno, 1);
    assert_eq!(e.message, "expecting an opening brace on its own line");
}

#[test]
fn name_with_closing_brace_rejected() {
    let input = lines(&["{", "   bad}name"]);
    let e = Suppressions::parse(&input).unwrap_err();
    assert_eq!(e.lineno, 2);
    assert_eq!(
        e.message,
        "the suppression name cannot contain a closing brace '}'"
    );
}

#[test]
fn missing_type_separator_rejected() {
    let input = lines(&["{", "   n", "   no separator here"]);
    let e = Suppressions::parse(&input).unwrap_err();
    assert_eq!(e.lineno, 3);
    assert_eq!(e.message, "no suppression type was found");
}

#[test]
fn invalid_calling_context_rejected() {
    let input = lines(&["{", "   n", "   Memcheck:Leak", "   ...", "   what is this"]);
    let e = Suppressions::parse(&input).unwrap_err();
    assert_eq!(e.lineno, 5);
    assert_eq!(e.message, "invalid calling context line");
}

#[test]
fn eof_right_after_brace_reports_unnamed() {
    let input = lines(&["{"]);
    let e = Suppressions::parse(&input).unwrap_err();
    assert_eq!(e.lineno, 1);
    assert_eq!(
        e.message,
        "unexpectedly encountered EOF while parsing a suppression"
    );
}

#[test]
fn eof_inside_frames_reports_name_at_open_line() {
    let input = lines(&["", "# x", "{", "   deep", "   Memcheck:Cond", "   fun:f"]);
    let e = Suppressions::parse(&input).unwrap_err();
    assert_eq!(e.lineno, 3);
    assert_eq!(
        e.message,
        "unexpectedly encountered EOF while parsing the suppression named 'deep'"
    );
}

#[test]
fn frame_globs_are_left_trimmed() {
    let input = lines(&["{", "   n", "   Memcheck:Leak", "   obj:   /usr/lib*", "}"]);
    let s = Suppressions::parse(&input).unwrap();
    assert!(matches!(
        &s.suppressions()[0].frames[0],
        Frame::ObjFrame { glob } if glob == "/usr/lib*"
    ));
}

#[test]
fn fun_frame_first_in_list_is_function_matcher() {
    let input = lines(&["{", "   n", "   Memcheck:Leak", "   fun:first", "}"]);
    let s = Suppressions::parse(&input).unwrap();
    assert!(matches!(
        &s.suppressions()[0].frames[0],
        Frame::FunFrame { glob } if glob == "first"
    ));
}

#[test]
fn empty_tool_names_from_comma_split_are_kept() {
    let input = lines(&["{", "   n", "   ,:x", "   ...", "}"]);
    let s = Suppressions::parse(&input).unwrap();
    let recs = s.suppressions();
    assert_eq!(recs.len(), 2);
    assert_eq!(
        recs[0].type_,
        SuppressionType::OtherType {
            tool_name: "".to_string(),
            suppression_type: "x".to_string(),
        }
    );
}

#[test]
fn other_tool_with_memcheck_category_stays_other() {
    let input = lines(&["{", "   n", "   Helgrind:Race", "   ...", "}"]);
    let s = Suppressions::parse(&input).unwrap();
    assert_eq!(
        s.suppressions()[0].type_,
        SuppressionType::OtherType {
            tool_name: "Helgrind".to_string(),
            suppression_type: "Race".to_string(),
        }
    );
}

#[test]
fn add_all_preserves_both_orders() {
    let a_in = lines(&["{", "   a1", "   Memcheck:Leak", "   ...", "}", "{", "   a2",
        "   Memcheck:Cond", "   ...", "}"]);
    let b_in = lines(&["{", "   b1", "   Memcheck:Free", "   ...", "}"]);
    let mut a = Suppressions::parse(&a_in).unwrap();
    let b = Suppressions::parse(&b_in).unwrap();
    a.add_all(&b);
    let names: Vec<&str> = a.suppressions().iter().map(|r| r.name.as_str()).collect();
    assert_eq!(names, vec!["a1", "a2", "b1"]);
    assert_eq!(b.suppressions().len(), 1);
}
