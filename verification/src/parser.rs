//! The executable parser: a line-driven state machine proved equal to
//! the specification machine in [`crate::machine`].

use vstd::prelude::*;

use crate::machine::Stage;
use crate::machine::expand_tools;
use crate::machine::frame_line;
use crate::machine::opt_lines;
use crate::machine::parse_lines;
use crate::machine::resolve_kind;
use crate::machine::run;
use crate::model::DiagModel;
use crate::model::Frame;
use crate::model::FrameModel;
use crate::model::ParseError;
use crate::model::Suppression;
use crate::model::SuppressionModel;
use crate::model::SuppressionType;
use crate::model::Suppressions;
use crate::model::copy_extra;
use crate::model::copy_frames;
use crate::model::lemma_deep_push_vec;
use crate::text::begins_with;
use crate::text::find_char;
use crate::text::has_char;
use crate::text::parse_dec;
use crate::text::split_on;
use crate::text::text_eq;
use crate::text::trim_of;

verus! {

/// Parsing state, mirroring [`Stage`] with executable data.
enum PState {
    Before,
    AfterOpen { open_line: usize },
    Named { open_line: usize, name: String },
    Typed {
        open_line: usize,
        name: String,
        tools: Vec<String>,
        raw_type: String,
        extra: Option<Vec<String>>,
    },
    Framed {
        open_line: usize,
        name: String,
        tools: Vec<String>,
        raw_type: String,
        extra: Option<Vec<String>>,
        frames: Vec<Frame>,
    },
}

impl View for PState {
    type V = Stage;

    closed spec fn view(&self) -> Stage {
        match self {
            PState::Before => Stage::Before,
            PState::AfterOpen { open_line } => Stage::AfterOpen { open_line: *open_line as int },
            PState::Named { open_line, name } => Stage::Named {
                open_line: *open_line as int,
                name: name@,
            },
            PState::Typed { open_line, name, tools, raw_type, extra } => Stage::Typed {
                open_line: *open_line as int,
                name: name@,
                tools: tools.deep_view(),
                raw_type: raw_type@,
                extra: extra.deep_view(),
            },
            PState::Framed { open_line, name, tools, raw_type, extra, frames } => Stage::Framed {
                open_line: *open_line as int,
                name: name@,
                tools: tools.deep_view(),
                raw_type: raw_type@,
                extra: extra.deep_view(),
                frames: frames.deep_view(),
            },
        }
    }
}

/// Resolves a tool name and raw category text to a suppression type.
fn resolve_kind_x(tool: &str, raw: &str) -> (k: SuppressionType)
    ensures
        k@ == resolve_kind(tool@, raw@),
{
    if text_eq(tool, "Memcheck") {
        if begins_with(raw, "Addr") {
            proof {
                reveal_strlit("Addr");
            }
            let n = raw.unicode_len();
            let suffix = raw.substring_char(4, n);
            proof {
                assert(suffix@ =~= raw@.skip(4));
            }
            match parse_dec(suffix) {
                Option::Some(v) => SuppressionType::MemcheckAddr(v),
                Option::None => SuppressionType::OtherType {
                    tool_name: String::from_str(tool),
                    suppression_type: String::from_str(raw),
                },
            }
        } else if text_eq(raw, "Cond") {
            SuppressionType::MemcheckCond
        } else if text_eq(raw, "Free") {
            SuppressionType::MemcheckFree
        } else if text_eq(raw, "Leak") {
            SuppressionType::MemcheckLeak
        } else if text_eq(raw, "Overlap") {
            SuppressionType::MemcheckOverlap
        } else if text_eq(raw, "Param") {
            SuppressionType::MemcheckParam
        } else if begins_with(raw, "Value") {
            proof {
                reveal_strlit("Value");
            }
            let n = raw.unicode_len();
            let suffix = raw.substring_char(5, n);
            proof {
                assert(suffix@ =~= raw@.skip(5));
            }
            match parse_dec(suffix) {
                Option::Some(v) => SuppressionType::MemcheckValue(v),
                Option::None => SuppressionType::OtherType {
                    tool_name: String::from_str(tool),
                    suppression_type: String::from_str(raw),
                },
            }
        } else {
            SuppressionType::OtherType {
                tool_name: String::from_str(tool),
                suppression_type: String::from_str(raw),
            }
        }
    } else {
        SuppressionType::OtherType {
            tool_name: String::from_str(tool),
            suppression_type: String::from_str(raw),
        }
    }
}

/// Reads a trimmed line as a calling-context frame, if it is one.
///
/// A `fun:` line always yields a function matcher, also when it opens
/// the frame list (the categorized grammar treats the first frame no
/// differently from the later ones).
fn frame_of(t: &str) -> (r: Option<Frame>)
    ensures
        r.deep_view() == frame_line(t@),
{
    if text_eq(t, "...") {
        Option::Some(Frame::FrameWildcard)
    } else if begins_with(t, "obj:") {
        proof {
            reveal_strlit("obj:");
        }
        let n = t.unicode_len();
        let g = crate::text::ltrim_of(t.substring_char(4, n));
        proof {
            assert(t@.subrange(4, t@.len() as int) =~= t@.skip(4));
        }
        Option::Some(Frame::ObjFrame { glob: String::from_str(g) })
    } else if begins_with(t, "fun:") {
        proof {
            reveal_strlit("fun:");
        }
        let n = t.unicode_len();
        let g = crate::text::ltrim_of(t.substring_char(4, n));
        proof {
            assert(t@.subrange(4, t@.len() as int) =~= t@.skip(4));
        }
        Option::Some(Frame::FunFrame { glob: String::from_str(g) })
    } else {
        Option::None
    }
}

/// Appends one record per tool name, all sharing the given name, extra
/// information and frames, each with its own resolved type.
fn expand_into(
    tools: &Vec<String>,
    name: &String,
    raw: &String,
    extra: &Option<Vec<String>>,
    frames: &Vec<Frame>,
    out: &mut Vec<Suppression>,
)
    ensures
        final(out).deep_view() == old(out).deep_view() + expand_tools(
            tools.deep_view(),
            name@,
            raw@,
            extra.deep_view(),
            frames.deep_view(),
        ),
{
    let ghost target = expand_tools(
        tools.deep_view(),
        name@,
        raw@,
        extra.deep_view(),
        frames.deep_view(),
    );
    let ghost base = old(out)@;
    let ghost base_dv = old(out).deep_view();
    let mut j: usize = 0;
    while j < tools.len()
        invariant
            0 <= j <= tools@.len(),
            target == expand_tools(
                tools.deep_view(),
                name@,
                raw@,
                extra.deep_view(),
                frames.deep_view(),
            ),
            target.len() == tools@.len(),
            out@.len() == base.len() + j,
            forall|k: int| 0 <= k < base.len() ==> out@[k] == base[k],
            forall|k: int| 0 <= k < j ==> out@[base.len() + k].deep_view() == target[k],
            base_dv.len() == base.len(),
            forall|k: int| 0 <= k < base.len() ==> base_dv[k] == base[k].deep_view(),
        decreases tools@.len() - j,
    {
        let rec = Suppression {
            name: name.clone(),
            type_: resolve_kind_x(tools[j].as_str(), raw.as_str()),
            opt_extra_info: copy_extra(extra),
            frames: copy_frames(frames),
        };
        proof {
            assert(tools.deep_view()[j as int] == tools@[j as int]@);
            assert(rec@ == target[j as int]);
        }
        out.push(rec);
        j = j + 1;
    }
    proof {
        assert forall|k: int| 0 <= k < out.deep_view().len() implies out.deep_view()[k] == (base_dv
            + target)[k] by {
            assert(out.deep_view()[k] == out@[k].deep_view());
            if k < base.len() {
                assert(out@[k] == base[k]);
            } else {
                assert(out@[k].deep_view() == target[k - base.len()]);
            }
        }
        assert(out.deep_view() =~= base_dv + target);
    }
}

impl Suppressions {
    /// Parses the suppressions in `lines`, given in Valgrind suppression
    /// syntax, one text line per element.
    ///
    /// Yields the records of every block, in emission order, or the
    /// first diagnostic: the result is exactly what the specification
    /// machine [`parse_lines`] assigns to the lines' values.
    pub fn parse(lines: &Vec<String>) -> (r: Result<Suppressions, ParseError>)
        ensures
            match r {
                Result::Ok(s) => parse_lines(lines.deep_view()) == Result::<
                    Seq<SuppressionModel>,
                    DiagModel,
                >::Ok(s@),
                Result::Err(e) => parse_lines(lines.deep_view()) == Result::<
                    Seq<SuppressionModel>,
                    DiagModel,
                >::Err(e@),
            },
    {
        let ghost ld = lines.deep_view();
        let mut acc: Vec<Suppression> = Vec::new();
        let mut state = PState::Before;
        let mut i: usize = 0;
        proof {
            assert(ld.skip(0) =~= ld);
            assert(acc.deep_view() =~= seq![]);
        }
        while i < lines.len()
            invariant
                0 <= i <= lines@.len(),
                ld == lines.deep_view(),
                ld.len() == lines@.len(),
                parse_lines(ld) == run(ld.skip(i as int), i as int + 1, state@, acc.deep_view()),
            decreases lines@.len() - i,
        {
            let ghost st0 = state@;
            let ghost accv0 = acc.deep_view();
            let line: &String = &lines[i];
            let t = trim_of(line.as_str());
            proof {
                assert(ld[i as int] == lines@[i as int]@);
                assert(ld.skip(i as int).len() == ld.len() - i);
                assert(ld.skip(i as int).first() == ld[i as int]);
                assert(ld.skip(i as int).drop_first() =~= ld.skip(i as int + 1));
            }
            let tl = t.unicode_len();
            if tl == 0 || t.get_char(0) == '#' {
                proof {
                    assert(run(ld.skip(i as int), i as int + 1, st0, accv0) == run(
                        ld.skip(i as int + 1),
                        i as int + 2,
                        st0,
                        accv0,
                    ));
                }
            } else {
                state = match state {
                    PState::Before => {
                        if text_eq(t, "{") {
                            let ns = PState::AfterOpen { open_line: i + 1 };
                            proof {
                                assert(accv0 + Seq::<SuppressionModel>::empty() =~= accv0);
                                assert(run(ld.skip(i as int), i as int + 1, st0, accv0) == run(
                                    ld.skip(i as int + 1),
                                    i as int + 2,
                                    ns@,
                                    acc.deep_view(),
                                ));
                            }
                            ns
                        } else if begins_with(t, "{") {
                            let e = ParseError {
                                lineno: i + 1,
                                message: String::from_str(
                                    "expecting an opening brace on its own line",
                                ),
                            };
                            proof {
                                assert(parse_lines(ld) == Result::<
                                    Seq<SuppressionModel>,
                                    DiagModel,
                                >::Err(e@));
                            }
                            return Result::Err(e);
                        } else {
                            let e = ParseError {
                                lineno: i + 1,
                                message: String::from_str("expecting an opening brace"),
                            };
                            proof {
                                assert(parse_lines(ld) == Result::<
                                    Seq<SuppressionModel>,
                                    DiagModel,
                                >::Err(e@));
                            }
                            return Result::Err(e);
                        }
                    },
                    PState::AfterOpen { open_line } => {
                        if text_eq(t, "}") {
                            let ns = PState::Before;
                            proof {
                                assert(accv0 + Seq::<SuppressionModel>::empty() =~= accv0);
                                assert(run(ld.skip(i as int), i as int + 1, st0, accv0) == run(
                                    ld.skip(i as int + 1),
                                    i as int + 2,
                                    ns@,
                                    acc.deep_view(),
                                ));
                            }
                            ns
                        } else if has_char(t, '}') {
                            let e = ParseError {
                                lineno: i + 1,
                                message: String::from_str(
                                    "the suppression name cannot contain a closing brace '}'",
                                ),
                            };
                            proof {
                                assert(parse_lines(ld) == Result::<
                                    Seq<SuppressionModel>,
                                    DiagModel,
                                >::Err(e@));
                            }
                            return Result::Err(e);
                        } else {
                            let ns = PState::Named { open_line, name: String::from_str(t) };
                            proof {
                                assert(accv0 + Seq::<SuppressionModel>::empty() =~= accv0);
                                assert(run(ld.skip(i as int), i as int + 1, st0, accv0) == run(
                                    ld.skip(i as int + 1),
                                    i as int + 2,
                                    ns@,
                                    acc.deep_view(),
                                ));
                            }
                            ns
                        }
                    },
                    PState::Named { open_line, name } => {
                        match find_char(t, ':') {
                            Option::None => {
                                let e = ParseError {
                                    lineno: i + 1,
                                    message: String::from_str("no suppression type was found"),
                                };
                                proof {
                                    assert(parse_lines(ld) == Result::<
                                        Seq<SuppressionModel>,
                                        DiagModel,
                                    >::Err(e@));
                                }
                                return Result::Err(e);
                            },
                            Option::Some(cp) => {
                                let tools_text = t.substring_char(0, cp);
                                let raw = t.substring_char(cp + 1, tl);
                                let tools = split_on(tools_text, ',');
                                proof {
                                    assert(tools_text@ == t@.subrange(0, cp as int));
                                    assert(raw@ =~= t@.skip(cp as int + 1));
                                }
                                let ns = PState::Typed {
                                    open_line,
                                    name,
                                    tools,
                                    raw_type: String::from_str(raw),
                                    extra: Option::None,
                                };
                                proof {
                                    assert(accv0 + Seq::<SuppressionModel>::empty() =~= accv0);
                                    assert(run(ld.skip(i as int), i as int + 1, st0, accv0) == run(
                                        ld.skip(i as int + 1),
                                        i as int + 2,
                                        ns@,
                                        acc.deep_view(),
                                    ));
                                }
                                ns
                            },
                        }
                    },
                    PState::Typed { open_line, name, tools, raw_type, extra } => {
                        match frame_of(t) {
                            Option::Some(f) => {
                                let mut fv: Vec<Frame> = Vec::new();
                                let ghost pre = fv@;
                                let ghost pre_dv = fv.deep_view();
                                fv.push(f);
                                proof {
                                    assert(pre_dv.len() == 0);
                                    lemma_deep_push_vec(pre, pre_dv, &fv, f);
                                    assert(fv.deep_view() =~= seq![frame_line(t@)->Some_0]);
                                }
                                let ns = PState::Framed {
                                    open_line,
                                    name,
                                    tools,
                                    raw_type,
                                    extra,
                                    frames: fv,
                                };
                                proof {
                                    assert(accv0 + Seq::<SuppressionModel>::empty() =~= accv0);
                                    assert(run(ld.skip(i as int), i as int + 1, st0, accv0) == run(
                                        ld.skip(i as int + 1),
                                        i as int + 2,
                                        ns@,
                                        acc.deep_view(),
                                    ));
                                }
                                ns
                            },
                            Option::None => {
                                if text_eq(t, "}") {
                                    let fv: Vec<Frame> = Vec::new();
                                    proof {
                                        assert(fv.deep_view() =~= Seq::<FrameModel>::empty());
                                    }
                                    expand_into(&tools, &name, &raw_type, &extra, &fv, &mut acc);
                                    let ns = PState::Before;
                                    proof {
                                        assert(acc.deep_view() == accv0 + expand_tools(
                                            tools.deep_view(),
                                            name@,
                                            raw_type@,
                                            extra.deep_view(),
                                            seq![],
                                        ));
                                        assert(run(ld.skip(i as int), i as int + 1, st0, accv0)
                                            == run(
                                            ld.skip(i as int + 1),
                                            i as int + 2,
                                            ns@,
                                            acc.deep_view(),
                                        ));
                                    }
                                    ns
                                } else {
                                    let pushed = String::from_str(t);
                                    let ghost ex0 = extra.deep_view();
                                    let new_extra = match extra {
                                        Option::None => {
                                            let mut v: Vec<String> = Vec::new();
                                            let ghost pre = v@;
                                            let ghost pre_dv = v.deep_view();
                                            v.push(pushed);
                                            proof {
                                                assert(pre_dv.len() == 0);
                                                lemma_deep_push_vec(pre, pre_dv, &v, pushed);
                                                assert(v.deep_view() =~= opt_lines(ex0).push(t@));
                                            }
                                            v
                                        },
                                        Option::Some(mut v) => {
                                            let ghost pre = v@;
                                            let ghost pre_dv = v.deep_view();
                                            v.push(pushed);
                                            proof {
                                                lemma_deep_push_vec(pre, pre_dv, &v, pushed);
                                                assert(v.deep_view() =~= opt_lines(ex0).push(t@));
                                            }
                                            v
                                        },
                                    };
                                    proof {
                                        assert(new_extra.deep_view() == opt_lines(ex0).push(t@));
                                    }
                                    let ns = PState::Typed {
                                        open_line,
                                        name,
                                        tools,
                                        raw_type,
                                        extra: Option::Some(new_extra),
                                    };
                                    proof {
                                        assert(accv0 + Seq::<SuppressionModel>::empty() =~= accv0);
                                        assert(run(ld.skip(i as int), i as int + 1, st0, accv0)
                                            == run(
                                            ld.skip(i as int + 1),
                                            i as int + 2,
                                            ns@,
                                            acc.deep_view(),
                                        ));
                                    }
                                    ns
                                }
                            },
                        }
                    },
                    PState::Framed { open_line, name, tools, raw_type, extra, mut frames } => {
                        match frame_of(t) {
                            Option::Some(f) => {
                                let ghost pre = frames@;
                                let ghost pre_dv = frames.deep_view();
                                frames.push(f);
                                proof {
                                    lemma_deep_push_vec(pre, pre_dv, &frames, f);
                                }
                                let ns = PState::Framed {
                                    open_line,
                                    name,
                                    tools,
                                    raw_type,
                                    extra,
                                    frames,
                                };
                                proof {
                                    assert(accv0 + Seq::<SuppressionModel>::empty() =~= accv0);
                                    assert(run(ld.skip(i as int), i as int + 1, st0, accv0) == run(
                                        ld.skip(i as int + 1),
                                        i as int + 2,
                                        ns@,
                                        acc.deep_view(),
                                    ));
                                }
                                ns
                            },
                            Option::None => {
                                if text_eq(t, "}") {
                                    expand_into(
                                        &tools,
                                        &name,
                                        &raw_type,
                                        &extra,
                                        &frames,
                                        &mut acc,
                                    );
                                    let ns = PState::Before;
                                    proof {
                                        assert(run(ld.skip(i as int), i as int + 1, st0, accv0)
                                            == run(
                                            ld.skip(i as int + 1),
                                            i as int + 2,
                                            ns@,
                                            acc.deep_view(),
                                        ));
                                    }
                                    ns
                                } else {
                                    let e = ParseError {
                                        lineno: i + 1,
                                        message: String::from_str("invalid calling context line"),
                                    };
                                    proof {
                                        assert(parse_lines(ld) == Result::<
                                            Seq<SuppressionModel>,
                                            DiagModel,
                                        >::Err(e@));
                                    }
                                    return Result::Err(e);
                                }
                            },
                        }
                    },
                };
            }
            i = i + 1;
        }
        proof {
            assert(ld.skip(i as int).len() == 0);
        }
        match state {
            PState::Before => {
                let s = Suppressions::from_records(acc);
                Result::Ok(s)
            },
            PState::AfterOpen { open_line } => {
                let e = ParseError {
                    lineno: open_line,
                    message: String::from_str(
                        "unexpectedly encountered EOF while parsing a suppression",
                    ),
                };
                Result::Err(e)
            },
            PState::Named { open_line, name } => {
                Result::Err(eof_named_error(open_line, name))
            },
            PState::Typed { open_line, name, .. } => {
                Result::Err(eof_named_error(open_line, name))
            },
            PState::Framed { open_line, name, .. } => {
                Result::Err(eof_named_error(open_line, name))
            },
        }
    }
}

/// The diagnostic for input that ends inside a named block.
fn eof_named_error(open_line: usize, name: String) -> (e: ParseError)
    ensures
        e@.line == open_line as int,
        e@.msg == crate::machine::msg_eof_named(name@),
{
    let message = String::from_str(
        "unexpectedly encountered EOF while parsing the suppression named '",
    ).concat(name.as_str()).concat("'");
    ParseError { lineno: open_line, message }
}

} // verus!
