use valgrind_suppressions::Frame;
use valgrind_suppressions::Suppression;
use valgrind_suppressions::SuppressionType;
use valgrind_suppressions::Suppressions;

fn text_lines(text: &str) -> Vec<String> {
    text.lines().map(|l| l.to_string()).collect()
}

#[test]
fn frame_rendering() {
    assert_eq!(Frame::FrameWildcard.render(), "...");
    assert_eq!(
        Frame::ObjFrame { glob: "/lib/*.so".to_string() }.render(),
        "obj:/lib/*.so"
    );
    assert_eq!(
        Frame::FunFrame { glob: "malloc".to_string() }.render(),
        "fun:malloc"
    );
}

#[test]
fn kind_rendering() {
    assert_eq!(SuppressionType::MemcheckAddr(4).render(), "Memcheck:Addr4");
    assert_eq!(SuppressionType::MemcheckCond.render(), "Memcheck:Cond");
    assert_eq!(SuppressionType::MemcheckFree.render(), "Memcheck:Free");
    assert_eq!(SuppressionType::MemcheckLeak.render(), "Memcheck:Leak");
    assert_eq!(SuppressionType::MemcheckOverlap.render(), "Memcheck:Overlap");
    assert_eq!(SuppressionType::MemcheckParam.render(), "Memcheck:Param");
    assert_eq!(SuppressionType::MemcheckValue(8).render(), "Memcheck:Value8");
    assert_eq!(SuppressionType::MemcheckValue(0).render(), "Memcheck:Value0");
    assert_eq!(SuppressionType::MemcheckAddr(12345).render(), "Memcheck:Addr12345");
    assert_eq!(
        SuppressionType::OtherType {
            tool_name: "Helgrind".to_string(),
            suppression_type: "Race".to_string(),
        }
        .render(),
        "?Helgrind:Race"
    );
}

#[test]
fn suppression_block_rendering() {
    let s = Suppression {
        name: "my-leak".to_string(),
        type_: SuppressionType::MemcheckParam,
        opt_extra_info: Some(vec!["write(buf)".to_string()]),
        frames: vec![
            Frame::FunFrame { glob: "write".to_string() },
            Frame::FrameWildcard,
        ],
    };
    assert_eq!(
        s.render(),
        "{\n   my-leak\n   Memcheck:Param\n   write(buf)\n   fun:write\n   ...\n}"
    );
}

#[test]
fn collection_rendering_appends_newline_per_block() {
    let input = text_lines("{\n   a\n   Memcheck:Leak\n   ...\n}\n{\n   b\n   Memcheck:Cond\n}\n");
    let s = Suppressions::parse(&input).unwrap();
    assert_eq!(
        s.render(),
        "{\n   a\n   Memcheck:Leak\n   ...\n}\n{\n   b\n   Memcheck:Cond\n}\n"
    );
}

#[test]
fn round_trip_structured_kind() {
    let s = Suppression {
        name: "round".to_string(),
        type_: SuppressionType::MemcheckAddr(4),
        opt_extra_info: None,
        frames: vec![
            Frame::ObjFrame { glob: "/usr/lib*".to_string() },
            Frame::FrameWildcard,
            Frame::FunFrame { glob: "f?o".to_string() },
        ],
    };
    let rendered = s.render();
    let reparsed = Suppressions::parse(&text_lines(&rendered)).unwrap();
    let recs = reparsed.suppressions();
    assert_eq!(recs.len(), 1);
    let r = &recs[0];
    assert_eq!(r.name, s.name);
    assert_eq!(r.type_, s.type_);
    assert_eq!(r.opt_extra_info, s.opt_extra_info);
    assert_eq!(r.frames.len(), 3);
    assert!(matches!(&r.frames[0], Frame::ObjFrame { glob } if glob == "/usr/lib*"));
    assert!(matches!(&r.frames[1], Frame::FrameWildcard));
    assert!(matches!(&r.frames[2], Frame::FunFrame { glob } if glob == "f?o"));
}

#[test]
fn round_trip_extra_info_and_empty_frames() {
    let s = Suppression {
        name: "extras".to_string(),
        type_: SuppressionType::MemcheckParam,
        opt_extra_info: Some(vec!["write(buf)".to_string(), "more".to_string()]),
        frames: vec![],
    };
    let rendered = s.render();
    let reparsed = Suppressions::parse(&text_lines(&rendered)).unwrap();
    let recs = reparsed.suppressions();
    assert_eq!(recs.len(), 1);
    assert_eq!(recs[0].name, s.name);
    assert_eq!(recs[0].type_, s.type_);
    assert_eq!(recs[0].opt_extra_info, s.opt_extra_info);
    assert_eq!(recs[0].frames.len(), 0);
}

#[test]
fn round_trip_other_kind_keeps_marker_in_tool_name() {
    let s = Suppression {
        name: "lossy".to_string(),
        type_: SuppressionType::OtherType {
            tool_name: "Helgrind".to_string(),
            suppression_type: "Race".to_string(),
        },
        opt_extra_info: None,
        frames: vec![Frame::FrameWildcard],
    };
    let rendered = s.render();
    assert_eq!(rendered, "{\n   lossy\n   ?Helgrind:Race\n   ...\n}");
    let reparsed = Suppressions::parse(&text_lines(&rendered)).unwrap();
    let recs = reparsed.suppressions();
    assert_eq!(recs.len(), 1);
    assert_eq!(
        recs[0].type_,
        SuppressionType::OtherType {
            tool_name: "?Helgrind".to_string(),
            suppression_type: "Race".to_string(),
        }
    );
}

#[test]
fn rendered_collection_reparses_to_same_records() {
    let input = text_lines(
        "{\n   one\n   Memcheck:Value16\n   fun:a\n   obj:b\n}\n{\n   two\n   ToolX:Custom\n   ...\n}\n",
    );
    let s = Suppressions::parse(&input).unwrap();
    let rendered = s.render();
    let again = Suppressions::parse(&text_lines(&rendered)).unwrap();
    let a = s.suppressions();
    let b = again.suppressions();
    assert_eq!(a.len(), b.len());
    assert_eq!(a[0].name, b[0].name);
    assert_eq!(a[0].type_, b[0].type_);
    // The catch-all kind re-reads its rendered `?` marker as part of
    // the tool name.
    assert_eq!(
        b[1].type_,
        SuppressionType::OtherType {
            tool_name: "?ToolX".to_string(),
            suppression_type: "Custom".to_string(),
        }
    );
}
