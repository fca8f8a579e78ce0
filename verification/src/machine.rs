//! The parser's specification: a finite-state machine over trimmed text
//! lines. `parse_lines` is the mathematical meaning of parsing; the
//! executable parser is proved equal to it.

use vstd::prelude::*;

use crate::model::DiagModel;
use crate::model::FrameModel;
use crate::model::KindModel;
use crate::model::SuppressionModel;
use crate::text::dec_parse;
use crate::text::find_char_at;
use crate::text::frame_glob_of;
use crate::text::has_prefix;
use crate::text::split_seq;
use crate::text::trimmed;

verus! {

/// One parsing state, carrying the line number of the block's opening
/// brace once known.
pub enum Stage {
    /// Between blocks: the next significant line must be `{` alone.
    Before,
    /// Inside a block, before its name line.
    AfterOpen { open_line: int },
    /// The block's name is known; its tool/category line is next.
    Named { open_line: int, name: Seq<char> },
    /// Tools and category are known; extra-information lines may follow.
    Typed {
        open_line: int,
        name: Seq<char>,
        tools: Seq<Seq<char>>,
        raw_type: Seq<char>,
        extra: Option<Seq<Seq<char>>>,
    },
    /// At least one calling-context frame has been collected.
    Framed {
        open_line: int,
        name: Seq<char>,
        tools: Seq<Seq<char>>,
        raw_type: Seq<char>,
        extra: Option<Seq<Seq<char>>>,
        frames: Seq<FrameModel>,
    },
}

pub open spec fn msg_expecting_brace() -> Seq<char> {
    "expecting an opening brace"@
}

pub open spec fn msg_brace_own_line() -> Seq<char> {
    "expecting an opening brace on its own line"@
}

pub open spec fn msg_name_brace() -> Seq<char> {
    "the suppression name cannot contain a closing brace '}'"@
}

pub open spec fn msg_no_type() -> Seq<char> {
    "no suppression type was found"@
}

pub open spec fn msg_bad_frame() -> Seq<char> {
    "invalid calling context line"@
}

pub open spec fn msg_eof_unnamed() -> Seq<char> {
    "unexpectedly encountered EOF while parsing a suppression"@
}

pub open spec fn msg_eof_named(name: Seq<char>) -> Seq<char> {
    "unexpectedly encountered EOF while parsing the suppression named '"@ + name + "'"@
}

/// Category resolution: `Memcheck` categories map to the structured
/// kinds, with the `Addr`/`Value` numeric suffix read as a machine
/// integer (falling back to the catch-all on failure); every other tool
/// or category is kept verbatim as the catch-all kind.
pub open spec fn resolve_kind(tool: Seq<char>, raw: Seq<char>) -> KindModel {
    if tool == "Memcheck"@ {
        if has_prefix(raw, "Addr"@) {
            match dec_parse(raw.skip(4)) {
                Option::Some(n) => KindModel::Addr(n),
                Option::None => KindModel::Other { tool_name: tool, raw_type: raw },
            }
        } else if raw == "Cond"@ {
            KindModel::Cond
        } else if raw == "Free"@ {
            KindModel::Free
        } else if raw == "Leak"@ {
            KindModel::Leak
        } else if raw == "Overlap"@ {
            KindModel::Overlap
        } else if raw == "Param"@ {
            KindModel::Param
        } else if has_prefix(raw, "Value"@) {
            match dec_parse(raw.skip(5)) {
                Option::Some(n) => KindModel::Value(n),
                Option::None => KindModel::Other { tool_name: tool, raw_type: raw },
            }
        } else {
            KindModel::Other { tool_name: tool, raw_type: raw }
        }
    } else {
        KindModel::Other { tool_name: tool, raw_type: raw }
    }
}

/// What a calling-context line denotes: the wildcard, an object
/// matcher, or a function matcher, if it is one of the three forms.
/// A `fun:` line yields a function matcher wherever it stands, the
/// first frame of a block included.
pub open spec fn frame_line(t: Seq<char>) -> Option<FrameModel> {
    if t == "..."@ {
        Option::Some(FrameModel::Wildcard)
    } else if has_prefix(t, "obj:"@) {
        Option::Some(FrameModel::Obj { glob: frame_glob_of(t) })
    } else if has_prefix(t, "fun:"@) {
        Option::Some(FrameModel::Fun { glob: frame_glob_of(t) })
    } else {
        Option::None
    }
}

/// The extra-information lines gathered so far, as a plain sequence.
pub open spec fn opt_lines(o: Option<Seq<Seq<char>>>) -> Seq<Seq<char>> {
    match o {
        Option::None => seq![],
        Option::Some(v) => v,
    }
}

/// The records a finished block yields: one per listed tool name, in
/// order, sharing name, extra information and frames, each with the
/// category resolved against its own tool name.
pub open spec fn expand_tools(
    tools: Seq<Seq<char>>,
    name: Seq<char>,
    raw: Seq<char>,
    extra: Option<Seq<Seq<char>>>,
    frames: Seq<FrameModel>,
) -> Seq<SuppressionModel> {
    tools.map(
        |i: int, t: Seq<char>|
            SuppressionModel {
                name: name,
                kind: resolve_kind(t, raw),
                extra_info: extra,
                frames: frames,
            },
    )
}

/// One transition of the state machine on a significant (already
/// trimmed, non-skipped) line, yielding the next state and any records
/// the line completes, or the diagnostic that stops the parse.
pub open spec fn step(st: Stage, t: Seq<char>, lineno: int) -> Result<
    (Stage, Seq<SuppressionModel>),
    DiagModel,
> {
    match st {
        Stage::Before => {
            if t == "{"@ {
                Result::Ok((Stage::AfterOpen { open_line: lineno }, seq![]))
            } else if has_prefix(t, "{"@) {
                Result::Err(DiagModel { line: lineno, msg: msg_brace_own_line() })
            } else {
                Result::Err(DiagModel { line: lineno, msg: msg_expecting_brace() })
            }
        },
        Stage::AfterOpen { open_line } => {
            if t == "}"@ {
                Result::Ok((Stage::Before, seq![]))
            } else if t.contains('}') {
                Result::Err(DiagModel { line: lineno, msg: msg_name_brace() })
            } else {
                Result::Ok((Stage::Named { open_line, name: t }, seq![]))
            }
        },
        Stage::Named { open_line, name } => {
            let cp = find_char_at(t, ':', 0);
            if cp == t.len() {
                Result::Err(DiagModel { line: lineno, msg: msg_no_type() })
            } else {
                Result::Ok(
                    (
                        Stage::Typed {
                            open_line,
                            name,
                            tools: split_seq(t.subrange(0, cp), ','),
                            raw_type: t.skip(cp + 1),
                            extra: Option::None,
                        },
                        seq![],
                    ),
                )
            }
        },
        Stage::Typed { open_line, name, tools, raw_type, extra } => {
            match frame_line(t) {
                Option::Some(f) => Result::Ok(
                    (
                        Stage::Framed {
                            open_line,
                            name,
                            tools,
                            raw_type,
                            extra,
                            frames: seq![f],
                        },
                        seq![],
                    ),
                ),
                Option::None => {
                    if t == "}"@ {
                        Result::Ok(
                            (Stage::Before, expand_tools(tools, name, raw_type, extra, seq![])),
                        )
                    } else {
                        Result::Ok(
                            (
                                Stage::Typed {
                                    open_line,
                                    name,
                                    tools,
                                    raw_type,
                                    extra: Option::Some(opt_lines(extra).push(t)),
                                },
                                seq![],
                            ),
                        )
                    }
                },
            }
        },
        Stage::Framed { open_line, name, tools, raw_type, extra, frames } => {
            match frame_line(t) {
                Option::Some(f) => Result::Ok(
                    (
                        Stage::Framed {
                            open_line,
                            name,
                            tools,
                            raw_type,
                            extra,
                            frames: frames.push(f),
                        },
                        seq![],
                    ),
                ),
                Option::None => {
                    if t == "}"@ {
                        Result::Ok(
                            (Stage::Before, expand_tools(tools, name, raw_type, extra, frames)),
                        )
                    } else {
                        Result::Err(DiagModel { line: lineno, msg: msg_bad_frame() })
                    }
                },
            }
        },
    }
}

/// A line that affects no state: blank, or a comment, after trimming.
pub open spec fn skipped_line(t: Seq<char>) -> bool {
    t.len() == 0 || t[0] == '#'
}

/// What the end of input yields: success between blocks, otherwise a
/// diagnostic at the opening brace of the unfinished block, naming the
/// suppression when its name is known.
pub open spec fn finish(st: Stage, acc: Seq<SuppressionModel>) -> Result<
    Seq<SuppressionModel>,
    DiagModel,
> {
    match st {
        Stage::Before => Result::Ok(acc),
        Stage::AfterOpen { open_line } => Result::Err(
            DiagModel { line: open_line, msg: msg_eof_unnamed() },
        ),
        Stage::Named { open_line, name } => Result::Err(
            DiagModel { line: open_line, msg: msg_eof_named(name) },
        ),
        Stage::Typed { open_line, name, .. } => Result::Err(
            DiagModel { line: open_line, msg: msg_eof_named(name) },
        ),
        Stage::Framed { open_line, name, .. } => Result::Err(
            DiagModel { line: open_line, msg: msg_eof_named(name) },
        ),
    }
}

/// Runs the machine over the remaining lines, the first of which is
/// line `lineno`, starting from `st` with `acc` already emitted.
pub open spec fn run(
    lines: Seq<Seq<char>>,
    lineno: int,
    st: Stage,
    acc: Seq<SuppressionModel>,
) -> Result<Seq<SuppressionModel>, DiagModel>
    decreases lines.len(),
{
    if lines.len() == 0 {
        finish(st, acc)
    } else {
        let t = trimmed(lines.first());
        if skipped_line(t) {
            run(lines.drop_first(), lineno + 1, st, acc)
        } else {
            match step(st, t, lineno) {
                Result::Err(d) => Result::Err(d),
                Result::Ok((st2, emitted)) => run(lines.drop_first(), lineno + 1, st2, acc + emitted),
            }
        }
    }
}

/// The meaning of parsing a sequence of text lines: the records of
/// every block, in emission order, or the first diagnostic.
pub open spec fn parse_lines(lines: Seq<Seq<char>>) -> Result<Seq<SuppressionModel>, DiagModel> {
    run(lines, 1, Stage::Before, seq![])
}

} // verus!
