//! Laws relating the parser and the renderer: a well-formed block
//! parses to the expected records (one per listed tool name, in
//! order), and rendering a record then parsing the rendered block
//! gives the record back.

use vstd::prelude::*;

use crate::machine::Stage;
use crate::machine::expand_tools;
use crate::machine::frame_line;
use crate::machine::opt_lines;
use crate::machine::parse_lines;
use crate::machine::resolve_kind;
use crate::machine::run;
use crate::machine::skipped_line;
use crate::machine::step;
use crate::model::DiagModel;
use crate::model::FrameModel;
use crate::model::KindModel;
use crate::model::SuppressionModel;
use crate::render::frame_text;
use crate::render::frame_texts;
use crate::render::indented;
use crate::render::kind_cat_text;
use crate::render::kind_text;
use crate::render::kind_tool_text;
use crate::render::suppression_lines;
use crate::text::dec_digits;
use crate::text::dec_parse;
use crate::text::find_char_at;
use crate::text::has_prefix;
use crate::text::is_digit_char;
use crate::text::is_space;
use crate::text::lemma_dec_digits;
use crate::text::lemma_find_char_is;
use crate::text::lemma_ltrim_id;
use crate::text::lemma_split_no_sep;
use crate::text::lemma_split_two;
use crate::text::lemma_trim_id;
use crate::text::lemma_trim_indent;
use crate::text::split_seq;
use crate::text::trimmed;

verus! {

/// A line that survives a round through the parser unchanged: it is
/// non-empty, it neither starts nor ends in whitespace (trimming keeps
/// it), and it is no comment.
pub open spec fn line_core(l: Seq<char>) -> bool {
    l.len() > 0 && !is_space(l[0]) && !is_space(l[l.len() - 1]) && l[0] != '#'
}

/// A name the parser accepts and returns unchanged.
pub open spec fn wf_name_line(name: Seq<char>) -> bool {
    line_core(name) && !name.contains('}')
}

/// Text before the colon of a tool/category line: it holds no colon
/// (the first colon must be the separator), and it does not make the
/// line look blank, trimmed or commented.
pub open spec fn wf_tools_text(tt: Seq<char>) -> bool {
    !tt.contains(':') && (tt.len() > 0 ==> (!is_space(tt[0]) && tt[0] != '#'))
}

/// Category text after the colon: trimming the line must not eat into
/// it, so it does not end in whitespace.
pub open spec fn wf_raw_type(raw: Seq<char>) -> bool {
    raw.len() > 0 ==> !is_space(raw[raw.len() - 1])
}

/// An extra-information line the parser accepts and returns unchanged:
/// kept by trimming, no comment, and not mistakable for a block end or
/// a calling-context frame.
pub open spec fn wf_extra_line(l: Seq<char>) -> bool {
    line_core(l) && l != "}"@ && frame_line(l) is None
}

/// A glob the parser returns unchanged: it neither starts nor ends in
/// whitespace.
pub open spec fn wf_glob(g: Seq<char>) -> bool {
    g.len() > 0 ==> (!is_space(g[0]) && !is_space(g[g.len() - 1]))
}

/// A frame whose rendered line parses back to the same frame.
pub open spec fn wf_frame(f: FrameModel) -> bool {
    match f {
        FrameModel::Wildcard => true,
        FrameModel::Obj { glob } => wf_glob(glob),
        FrameModel::Fun { glob } => wf_glob(glob),
    }
}

/// The lines of one suppression block, from its parts: the opening
/// brace, the indented name, tool/category, extra-information and
/// frame lines, and the closing brace.
pub open spec fn block_lines(
    name: Seq<char>,
    tools_text: Seq<char>,
    raw: Seq<char>,
    extras: Seq<Seq<char>>,
    frames: Seq<FrameModel>,
) -> Seq<Seq<char>> {
    seq!["{"@] + indented(seq![name, tools_text + ":"@ + raw] + extras + frame_texts(frames))
        + seq!["}"@]
}

/// The extra-information field a parsed block carries: absent when no
/// extra lines were seen.
pub open spec fn extras_opt(es: Seq<Seq<char>>) -> Option<Seq<Seq<char>>> {
    if es.len() == 0 {
        Option::None
    } else {
        Option::Some(es)
    }
}

/// What gathering further extra lines does to the extra field.
pub open spec fn extended(cur: Option<Seq<Seq<char>>>, es: Seq<Seq<char>>) -> Option<
    Seq<Seq<char>>,
> {
    if es.len() == 0 {
        cur
    } else {
        Option::Some(opt_lines(cur) + es)
    }
}

/// The rendered line of a well-formed frame is kept by trimming, is no
/// comment, no block end, and reads back as exactly that frame.
pub proof fn lemma_frame_text_props(f: FrameModel)
    requires
        wf_frame(f),
    ensures
        line_core(frame_text(f)),
        frame_text(f) != "}"@,
        frame_line(frame_text(f)) == Option::Some(f),
{
    reveal_strlit("...");
    reveal_strlit("obj:");
    reveal_strlit("fun:");
    reveal_strlit("}");
    match f {
        FrameModel::Wildcard => {
            let t = "..."@;
            assert(t.len() == 3 && t[0] == '.' && t[2] == '.');
            assert(frame_line(t) == Option::Some(FrameModel::Wildcard));
        },
        FrameModel::Obj { glob } => {
            let t = "obj:"@ + glob;
            assert(t.len() == 4 + glob.len());
            assert(t[0] == 'o');
            if glob.len() > 0 {
                assert(t[t.len() - 1] == glob[glob.len() - 1]);
            } else {
                assert(t[t.len() - 1] == ':');
            }
            assert(t != "..."@);
            assert(t.subrange(0, 4) =~= "obj:"@);
            assert(has_prefix(t, "obj:"@));
            assert(t.skip(4) =~= glob);
            lemma_ltrim_id(glob);
            assert(crate::text::frame_glob_of(t) == glob);
            assert(frame_line(t) == Option::Some(FrameModel::Obj { glob }));
        },
        FrameModel::Fun { glob } => {
            let t = "fun:"@ + glob;
            assert(t.len() == 4 + glob.len());
            assert(t[0] == 'f');
            if glob.len() > 0 {
                assert(t[t.len() - 1] == glob[glob.len() - 1]);
            } else {
                assert(t[t.len() - 1] == ':');
            }
            assert(t != "..."@);
            assert(!has_prefix(t, "obj:"@)) by {
                if has_prefix(t, "obj:"@) {
                    assert(t.subrange(0, 4)[0] == t[0]);
                }
            }
            assert(t.subrange(0, 4) =~= "fun:"@);
            assert(has_prefix(t, "fun:"@));
            assert(t.skip(4) =~= glob);
            lemma_ltrim_id(glob);
            assert(frame_line(t) == Option::Some(FrameModel::Fun { glob }));
        },
    }
}

/// The closing-brace line is kept by trimming, is significant, and is
/// neither a frame nor anything else the inner states accept as data.
pub proof fn lemma_close_line()
    ensures
        trimmed("}"@) == "}"@,
        !skipped_line("}"@),
        frame_line("}"@) == Option::None::<FrameModel>,
{
    reveal_strlit("}");
    reveal_strlit("...");
    reveal_strlit("obj:");
    reveal_strlit("fun:");
    lemma_trim_id("}"@);
    assert("}"@ != "..."@);
    assert(!has_prefix("}"@, "obj:"@));
    assert(!has_prefix("}"@, "fun:"@));
}

/// Consuming the indented forms of well-formed extra lines gathers
/// exactly those lines, in order, and moves to the next input line.
pub proof fn lemma_run_extras(
    es: Seq<Seq<char>>,
    rest: Seq<Seq<char>>,
    n: int,
    ol: int,
    name: Seq<char>,
    tools: Seq<Seq<char>>,
    raw: Seq<char>,
    cur: Option<Seq<Seq<char>>>,
    acc: Seq<SuppressionModel>,
)
    requires
        forall|k: int| 0 <= k < es.len() ==> wf_extra_line(#[trigger] es[k]),
    ensures
        run(
            indented(es) + rest,
            n,
            Stage::Typed { open_line: ol, name, tools, raw_type: raw, extra: cur },
            acc,
        ) == run(
            rest,
            n + es.len(),
            Stage::Typed { open_line: ol, name, tools, raw_type: raw, extra: extended(cur, es) },
            acc,
        ),
    decreases es.len(),
{
    if es.len() == 0 {
        assert(indented(es) + rest =~= rest);
    } else {
        let lines = indented(es) + rest;
        let l0 = es[0];
        assert(lines.first() == "   "@ + l0);
        lemma_trim_indent(l0);
        assert(trimmed(lines.first()) == l0);
        assert(!skipped_line(l0));
        let cur2 = Option::Some(opt_lines(cur).push(l0));
        let st = Stage::Typed { open_line: ol, name, tools, raw_type: raw, extra: cur };
        let st2 = Stage::Typed { open_line: ol, name, tools, raw_type: raw, extra: cur2 };
        assert(step(st, l0, n) == Result::<_, DiagModel>::Ok((st2, Seq::<SuppressionModel>::empty())));
        assert(acc + Seq::<SuppressionModel>::empty() =~= acc);
        assert(lines.drop_first() =~= indented(es.drop_first()) + rest);
        assert(run(lines, n, st, acc) == run(indented(es.drop_first()) + rest, n + 1, st2, acc));
        assert(forall|k: int|
            0 <= k < es.drop_first().len() ==> wf_extra_line(#[trigger] es.drop_first()[k]));
        lemma_run_extras(es.drop_first(), rest, n + 1, ol, name, tools, raw, cur2, acc);
        assert(extended(cur2, es.drop_first()) == extended(cur, es)) by {
            if es.len() == 1 {
                assert(opt_lines(cur).push(l0) =~= opt_lines(cur) + es);
            } else {
                assert(opt_lines(cur2) + es.drop_first() =~= opt_lines(cur) + es);
            }
        }
        assert(n + 1 + es.drop_first().len() == n + es.len());
    }
}

/// Consuming the indented rendered forms of well-formed frames appends
/// exactly those frames, in order, and moves to the next input line.
pub proof fn lemma_run_frames(
    fs: Seq<FrameModel>,
    rest: Seq<Seq<char>>,
    n: int,
    ol: int,
    name: Seq<char>,
    tools: Seq<Seq<char>>,
    raw: Seq<char>,
    extra: Option<Seq<Seq<char>>>,
    cur: Seq<FrameModel>,
    acc: Seq<SuppressionModel>,
)
    requires
        forall|k: int| 0 <= k < fs.len() ==> wf_frame(#[trigger] fs[k]),
    ensures
        run(
            indented(frame_texts(fs)) + rest,
            n,
            Stage::Framed { open_line: ol, name, tools, raw_type: raw, extra, frames: cur },
            acc,
        ) == run(
            rest,
            n + fs.len(),
            Stage::Framed { open_line: ol, name, tools, raw_type: raw, extra, frames: cur + fs },
            acc,
        ),
    decreases fs.len(),
{
    if fs.len() == 0 {
        assert(indented(frame_texts(fs)) + rest =~= rest);
        assert(cur + fs =~= cur);
    } else {
        let lines = indented(frame_texts(fs)) + rest;
        let f0 = fs[0];
        let t0 = frame_text(f0);
        assert(frame_texts(fs)[0] == t0);
        assert(lines.first() == "   "@ + t0);
        lemma_frame_text_props(f0);
        lemma_trim_indent(t0);
        assert(trimmed(lines.first()) == t0);
        assert(!skipped_line(t0));
        let st = Stage::Framed { open_line: ol, name, tools, raw_type: raw, extra, frames: cur };
        let st2 = Stage::Framed {
            open_line: ol,
            name,
            tools,
            raw_type: raw,
            extra,
            frames: cur.push(f0),
        };
        assert(step(st, t0, n) == Result::<_, DiagModel>::Ok((st2, Seq::<SuppressionModel>::empty())));
        assert(acc + Seq::<SuppressionModel>::empty() =~= acc);
        assert(lines.drop_first() =~= indented(frame_texts(fs.drop_first())) + rest);
        assert(run(lines, n, st, acc) == run(
            indented(frame_texts(fs.drop_first())) + rest,
            n + 1,
            st2,
            acc,
        ));
        assert(forall|k: int|
            0 <= k < fs.drop_first().len() ==> wf_frame(#[trigger] fs.drop_first()[k]));
        lemma_run_frames(fs.drop_first(), rest, n + 1, ol, name, tools, raw, extra, cur.push(f0), acc);
        assert(cur.push(f0) + fs.drop_first() =~= cur + fs);
        assert(n + 1 + fs.drop_first().len() == n + fs.len());
    }
}

/// Law: a well-formed block parses to exactly the expected records —
/// one per comma-separated tool name, in listing order, sharing the
/// block's name, extra information and frames, each with the category
/// resolved against its own tool name.
pub proof fn lemma_parse_block(
    name: Seq<char>,
    tools_text: Seq<char>,
    raw: Seq<char>,
    extras: Seq<Seq<char>>,
    frames: Seq<FrameModel>,
)
    requires
        wf_name_line(name),
        wf_tools_text(tools_text),
        wf_raw_type(raw),
        forall|k: int| 0 <= k < extras.len() ==> wf_extra_line(#[trigger] extras[k]),
        forall|k: int| 0 <= k < frames.len() ==> wf_frame(#[trigger] frames[k]),
    ensures
        parse_lines(block_lines(name, tools_text, raw, extras, frames)) == Result::<
            Seq<SuppressionModel>,
            DiagModel,
        >::Ok(expand_tools(split_seq(tools_text, ','), name, raw, extras_opt(extras), frames)),
{
    reveal_strlit("{");
    reveal_strlit("}");
    reveal_strlit(":");
    let kline = tools_text + ":"@ + raw;
    let body = seq![name, kline] + extras + frame_texts(frames);
    let bl = block_lines(name, tools_text, raw, extras, frames);
    let tools = split_seq(tools_text, ',');
    let a0 = Seq::<SuppressionModel>::empty();
    let none_extra = Option::<Seq<Seq<char>>>::None;
    assert(a0 =~= seq![]);
    // The opening brace line.
    assert(bl.first() == "{"@);
    assert("{"@.len() == 1 && "{"@[0] == '{');
    lemma_trim_id("{"@);
    assert(!skipped_line("{"@));
    let st1 = Stage::AfterOpen { open_line: 1 };
    assert(step(Stage::Before, "{"@, 1) == Result::<_, DiagModel>::Ok((st1, a0)));
    assert(a0 + a0 =~= a0);
    assert(bl.drop_first() =~= indented(body) + seq!["}"@]);
    assert(parse_lines(bl) == run(indented(body) + seq!["}"@], 2, st1, a0));
    // The name line.
    let rest2 = indented(body) + seq!["}"@];
    assert(body[0] == name);
    assert(rest2.first() == "   "@ + name);
    lemma_trim_indent(name);
    assert(!skipped_line(name));
    assert(name != "}"@) by {
        if name == "}"@ {
            assert(name[0] == '}');
            assert(name.contains('}'));
        }
    }
    let st2 = Stage::Named { open_line: 1, name };
    assert(step(st1, name, 2) == Result::<_, DiagModel>::Ok((st2, a0)));
    let body1 = seq![kline] + extras + frame_texts(frames);
    assert(body.drop_first() =~= body1);
    assert(rest2.drop_first() =~= indented(body1) + seq!["}"@]);
    assert(run(rest2, 2, st1, a0) == run(indented(body1) + seq!["}"@], 3, st2, a0));
    // The tool/category line.
    let rest3 = indented(body1) + seq!["}"@];
    assert(body1[0] == kline);
    assert(rest3.first() == "   "@ + kline);
    let tl = tools_text.len() as int;
    assert(kline.len() == tools_text.len() + 1 + raw.len());
    assert(kline[tl] == ':');
    assert(kline.len() > 0);
    if tools_text.len() > 0 {
        assert(kline[0] == tools_text[0]);
    } else {
        assert(kline[0] == ':');
    }
    if raw.len() > 0 {
        assert(kline[kline.len() - 1] == raw[raw.len() - 1]);
    } else {
        assert(kline[kline.len() - 1] == ':');
    }
    assert(line_core(kline));
    lemma_trim_indent(kline);
    assert(!skipped_line(kline));
    assert forall|j: int| 0 <= j < tl implies kline[j] != ':' by {
        assert(kline[j] == tools_text[j]);
        if kline[j] == ':' {
            assert(tools_text.contains(':'));
        }
    }
    lemma_find_char_is(kline, ':', 0, tl);
    assert(find_char_at(kline, ':', 0) == tl);
    assert(kline.subrange(0, tl) =~= tools_text);
    assert(kline.skip(tl + 1) =~= raw);
    let st3 = Stage::Typed { open_line: 1, name, tools, raw_type: raw, extra: none_extra };
    assert(step(st2, kline, 3) == Result::<_, DiagModel>::Ok((st3, a0)));
    let body2 = extras + frame_texts(frames);
    assert(body1.drop_first() =~= body2);
    let ftail = indented(frame_texts(frames)) + seq!["}"@];
    assert(rest3.drop_first() =~= indented(extras) + ftail);
    assert(run(rest3, 3, st2, a0) == run(indented(extras) + ftail, 4, st3, a0));
    // The extra-information lines.
    lemma_run_extras(extras, ftail, 4, 1, name, tools, raw, none_extra, a0);
    let ex = extras_opt(extras);
    assert(extended(none_extra, extras) == ex) by {
        if extras.len() > 0 {
            assert(opt_lines(none_extra) + extras =~= extras);
        }
    }
    let st4 = Stage::Typed { open_line: 1, name, tools, raw_type: raw, extra: ex };
    let n4 = 4 + extras.len() as int;
    assert(run(indented(extras) + ftail, 4, st3, a0) == run(ftail, n4, st4, a0));
    // The frame lines and the closing brace.
    lemma_close_line();
    let emitted = expand_tools(tools, name, raw, ex, frames);
    if frames.len() == 0 {
        assert(ftail =~= seq!["}"@]);
        assert(ftail.first() == "}"@);
        assert(step(st4, "}"@, n4) == Result::<_, DiagModel>::Ok(
            (Stage::Before, expand_tools(tools, name, raw, ex, seq![])),
        ));
        assert(seq![] =~= frames);
        assert(expand_tools(tools, name, raw, ex, seq![]) == emitted);
        assert(a0 + emitted =~= emitted);
        assert(ftail.drop_first() =~= Seq::<Seq<char>>::empty());
        assert(run(ftail, n4, st4, a0) == run(
            Seq::<Seq<char>>::empty(),
            n4 + 1,
            Stage::Before,
            emitted,
        ));
        assert(run(Seq::<Seq<char>>::empty(), n4 + 1, Stage::Before, emitted) == Result::<
            _,
            DiagModel,
        >::Ok(emitted));
    } else {
        let f0 = frames[0];
        let t0 = frame_text(f0);
        assert(frame_texts(frames)[0] == t0);
        assert(ftail.first() == "   "@ + t0);
        lemma_frame_text_props(f0);
        lemma_trim_indent(t0);
        assert(!skipped_line(t0));
        let st5 = Stage::Framed {
            open_line: 1,
            name,
            tools,
            raw_type: raw,
            extra: ex,
            frames: seq![f0],
        };
        assert(step(st4, t0, n4) == Result::<_, DiagModel>::Ok((st5, a0)));
        assert(ftail.drop_first() =~= indented(frame_texts(frames.drop_first())) + seq!["}"@]);
        assert(run(ftail, n4, st4, a0) == run(
            indented(frame_texts(frames.drop_first())) + seq!["}"@],
            n4 + 1,
            st5,
            a0,
        ));
        assert(forall|k: int|
            0 <= k < frames.drop_first().len() ==> wf_frame(#[trigger] frames.drop_first()[k]));
        lemma_run_frames(
            frames.drop_first(),
            seq!["}"@],
            n4 + 1,
            1,
            name,
            tools,
            raw,
            ex,
            seq![f0],
            a0,
        );
        assert(seq![f0] + frames.drop_first() =~= frames);
        let st6 = Stage::Framed {
            open_line: 1,
            name,
            tools,
            raw_type: raw,
            extra: ex,
            frames,
        };
        let n6 = n4 + 1 + frames.drop_first().len() as int;
        assert(run(indented(frame_texts(frames.drop_first())) + seq!["}"@], n4 + 1, st5, a0)
            == run(seq!["}"@], n6, st6, a0));
        let close: Seq<Seq<char>> = seq!["}"@];
        assert(close.first() == "}"@);
        assert(step(st6, "}"@, n6) == Result::<_, DiagModel>::Ok((Stage::Before, emitted)));
        assert(a0 + emitted =~= emitted);
        assert(close.drop_first() =~= Seq::<Seq<char>>::empty());
        assert(run(close, n6, st6, a0) == run(
            Seq::<Seq<char>>::empty(),
            n6 + 1,
            Stage::Before,
            emitted,
        ));
        assert(run(Seq::<Seq<char>>::empty(), n6 + 1, Stage::Before, emitted) == Result::<
            _,
            DiagModel,
        >::Ok(emitted));
    }
}

/// Law: a valid single block listing exactly one tool name parses to
/// exactly one record whose fields equal the parsed name, resolved
/// kind, extra information and frames.
pub proof fn lemma_single_tool_block(
    name: Seq<char>,
    tool: Seq<char>,
    raw: Seq<char>,
    extras: Seq<Seq<char>>,
    frames: Seq<FrameModel>,
)
    requires
        wf_name_line(name),
        wf_tools_text(tool),
        wf_raw_type(raw),
        forall|k: int| 0 <= k < extras.len() ==> wf_extra_line(#[trigger] extras[k]),
        forall|k: int| 0 <= k < frames.len() ==> wf_frame(#[trigger] frames[k]),
        !tool.contains(','),
    ensures
        parse_lines(block_lines(name, tool, raw, extras, frames)) == Result::<
            Seq<SuppressionModel>,
            DiagModel,
        >::Ok(
            seq![
                (SuppressionModel {
                    name,
                    kind: resolve_kind(tool, raw),
                    extra_info: extras_opt(extras),
                    frames,
                }),
            ],
        ),
{
    lemma_parse_block(name, tool, raw, extras, frames);
    lemma_split_no_sep(tool, ',');
    assert(expand_tools(seq![tool], name, raw, extras_opt(extras), frames) =~= seq![
        (SuppressionModel {
            name,
            kind: resolve_kind(tool, raw),
            extra_info: extras_opt(extras),
            frames,
        }),
    ]);
}

/// Law: a block listing two tool names yields exactly two records with
/// the same name, extra information and frames, emitted in listing
/// order, each with the category resolved against its own tool name.
pub proof fn lemma_two_tool_block(
    name: Seq<char>,
    tool_a: Seq<char>,
    tool_b: Seq<char>,
    raw: Seq<char>,
    extras: Seq<Seq<char>>,
    frames: Seq<FrameModel>,
)
    requires
        wf_name_line(name),
        wf_raw_type(raw),
        forall|k: int| 0 <= k < extras.len() ==> wf_extra_line(#[trigger] extras[k]),
        forall|k: int| 0 <= k < frames.len() ==> wf_frame(#[trigger] frames[k]),
        !tool_a.contains(','),
        !tool_a.contains(':'),
        !tool_b.contains(','),
        !tool_b.contains(':'),
        tool_a.len() > 0 ==> (!is_space(tool_a[0]) && tool_a[0] != '#'),
    ensures
        parse_lines(block_lines(name, tool_a + seq![','] + tool_b, raw, extras, frames))
            == Result::<Seq<SuppressionModel>, DiagModel>::Ok(
            seq![
                (SuppressionModel {
                    name,
                    kind: resolve_kind(tool_a, raw),
                    extra_info: extras_opt(extras),
                    frames,
                }),
                (SuppressionModel {
                    name,
                    kind: resolve_kind(tool_b, raw),
                    extra_info: extras_opt(extras),
                    frames,
                }),
            ],
        ),
{
    let tt = tool_a + seq![','] + tool_b;
    let al = tool_a.len() as int;
    assert forall|j: int| 0 <= j < tt.len() implies tt[j] != ':' by {
        if j < al {
            assert(tt[j] == tool_a[j]);
            if tt[j] == ':' {
                assert(tool_a.contains(':'));
            }
        } else if j == al {
            assert(tt[j] == ',');
        } else {
            assert(tt[j] == tool_b[j - al - 1]);
            if tt[j] == ':' {
                assert(tool_b.contains(':'));
            }
        }
    }
    assert(!tt.contains(':'));
    if tool_a.len() > 0 {
        assert(tt[0] == tool_a[0]);
    } else {
        assert(tt[0] == ',');
    }
    assert(wf_tools_text(tt));
    lemma_parse_block(name, tt, raw, extras, frames);
    lemma_split_two(tool_a, tool_b, ',');
    assert(expand_tools(seq![tool_a, tool_b], name, raw, extras_opt(extras), frames) =~= seq![
        (SuppressionModel {
            name,
            kind: resolve_kind(tool_a, raw),
            extra_info: extras_opt(extras),
            frames,
        }),
        (SuppressionModel {
            name,
            kind: resolve_kind(tool_b, raw),
            extra_info: extras_opt(extras),
            frames,
        }),
    ]);
}

/// A kind whose rendered tool/category line parses back cleanly: the
/// numeric parameters fit the machine integer the parser reads, and a
/// kept tool name brings no comma or colon into the line.
pub open spec fn kind_round_trippable(k: KindModel) -> bool {
    match k {
        KindModel::Addr(n) => n <= usize::MAX,
        KindModel::Value(n) => n <= usize::MAX,
        KindModel::Other { tool_name, raw_type } => !tool_name.contains(',')
            && !tool_name.contains(':') && wf_raw_type(raw_type),
        _ => true,
    }
}

/// A record whose rendered block parses back to an equal record (up to
/// the `?` marker on a catch-all kind's tool name).
pub open spec fn round_trippable(m: SuppressionModel) -> bool {
    &&& wf_name_line(m.name)
    &&& kind_round_trippable(m.kind)
    &&& match m.extra_info {
        Option::None => true,
        Option::Some(es) => es.len() > 0 && forall|k: int|
            0 <= k < es.len() ==> wf_extra_line(#[trigger] es[k]),
    }
    &&& forall|k: int| 0 <= k < m.frames.len() ==> wf_frame(#[trigger] m.frames[k])
}

/// The kind a reparsed rendered block carries: the structured kinds
/// come back identical; a catch-all kind comes back with the rendered
/// `?` marker kept in front of its tool name.
pub open spec fn reparsed_kind(k: KindModel) -> KindModel {
    match k {
        KindModel::Other { tool_name, raw_type } => KindModel::Other {
            tool_name: "?"@ + tool_name,
            raw_type,
        },
        _ => k,
    }
}

/// Resolving a rendered kind's tool and category text gives the kind
/// back (with the `?` marker kept on a catch-all kind), and the two
/// texts are fit for a tool/category line.
pub proof fn lemma_resolve_rendered_kind(k: KindModel)
    requires
        kind_round_trippable(k),
    ensures
        resolve_kind(kind_tool_text(k), kind_cat_text(k)) == reparsed_kind(k),
        wf_tools_text(kind_tool_text(k)),
        wf_raw_type(kind_cat_text(k)),
        !kind_tool_text(k).contains(','),
{
    reveal_strlit("Memcheck");
    reveal_strlit("Addr");
    reveal_strlit("Cond");
    reveal_strlit("Free");
    reveal_strlit("Leak");
    reveal_strlit("Overlap");
    reveal_strlit("Param");
    reveal_strlit("Value");
    reveal_strlit("?");
    let mc = "Memcheck"@;
    assert(mc.len() == 8 && mc[0] == 'M');
    assert forall|j: int| 0 <= j < mc.len() implies mc[j] != ':' && mc[j] != ',' by {}
    assert(!mc.contains(':') && !mc.contains(','));
    match k {
        KindModel::Addr(n) => {
            let cat = "Addr"@ + dec_digits(n);
            lemma_dec_digits(n);
            assert(cat.len() >= 5);
            assert(cat[cat.len() - 1] == dec_digits(n)[dec_digits(n).len() - 1]);
            assert(is_digit_char(cat[cat.len() - 1]));
            assert(cat.subrange(0, 4) =~= "Addr"@);
            assert(has_prefix(cat, "Addr"@));
            assert(cat.skip(4) =~= dec_digits(n));
            assert(dec_parse(dec_digits(n)) == Option::Some(n));
        },
        KindModel::Cond => {
            assert(!has_prefix("Cond"@, "Addr"@)) by {
                if has_prefix("Cond"@, "Addr"@) {
                    assert("Cond"@.subrange(0, 4)[0] == 'C');
                }
            }
        },
        KindModel::Free => {
            assert(!has_prefix("Free"@, "Addr"@)) by {
                if has_prefix("Free"@, "Addr"@) {
                    assert("Free"@.subrange(0, 4)[0] == 'F');
                }
            }
            assert("Free"@ != "Cond"@) by {
                if "Free"@ == "Cond"@ {
                    assert("Free"@[0] == "Cond"@[0]);
                }
            }
        },
        KindModel::Leak => {
            assert(!has_prefix("Leak"@, "Addr"@)) by {
                if has_prefix("Leak"@, "Addr"@) {
                    assert("Leak"@.subrange(0, 4)[0] == 'L');
                }
            }
            assert("Leak"@ != "Cond"@ && "Leak"@ != "Free"@) by {
                if "Leak"@ == "Cond"@ {
                    assert("Leak"@[0] == "Cond"@[0]);
                }
                if "Leak"@ == "Free"@ {
                    assert("Leak"@[0] == "Free"@[0]);
                }
            }
        },
        KindModel::Overlap => {
            assert(!has_prefix("Overlap"@, "Addr"@)) by {
                if has_prefix("Overlap"@, "Addr"@) {
                    assert("Overlap"@.subrange(0, 4)[0] == 'O');
                }
            }
            assert("Overlap"@ != "Cond"@ && "Overlap"@ != "Free"@ && "Overlap"@ != "Leak"@) by {
                if "Overlap"@ == "Cond"@ {
                    assert("Overlap"@[0] == "Cond"@[0]);
                }
                if "Overlap"@ == "Free"@ {
                    assert("Overlap"@[0] == "Free"@[0]);
                }
                if "Overlap"@ == "Leak"@ {
                    assert("Overlap"@[0] == "Leak"@[0]);
                }
            }
        },
        KindModel::Param => {
            assert(!has_prefix("Param"@, "Addr"@)) by {
                if has_prefix("Param"@, "Addr"@) {
                    assert("Param"@.subrange(0, 4)[0] == 'P');
                }
            }
            assert("Param"@ != "Cond"@ && "Param"@ != "Free"@ && "Param"@ != "Leak"@ && "Param"@
                != "Overlap"@) by {
                if "Param"@ == "Cond"@ {
                    assert("Param"@[0] == "Cond"@[0]);
                }
                if "Param"@ == "Free"@ {
                    assert("Param"@[0] == "Free"@[0]);
                }
                if "Param"@ == "Leak"@ {
                    assert("Param"@[0] == "Leak"@[0]);
                }
                if "Param"@ == "Overlap"@ {
                    assert("Param"@[0] == "Overlap"@[0]);
                }
            }
        },
        KindModel::Value(n) => {
            let cat = "Value"@ + dec_digits(n);
            lemma_dec_digits(n);
            assert(cat.len() >= 6);
            assert(cat[0] == 'V');
            assert(cat[cat.len() - 1] == dec_digits(n)[dec_digits(n).len() - 1]);
            assert(is_digit_char(cat[cat.len() - 1]));
            assert(!has_prefix(cat, "Addr"@)) by {
                if has_prefix(cat, "Addr"@) {
                    assert(cat.subrange(0, 4)[0] == cat[0]);
                }
            }
            assert(cat != "Cond"@ && cat != "Free"@ && cat != "Leak"@ && cat != "Overlap"@ && cat
                != "Param"@) by {
                assert(cat[0] == 'V');
                if cat == "Cond"@ {
                    assert(cat[0] == "Cond"@[0]);
                }
                if cat == "Free"@ {
                    assert(cat[0] == "Free"@[0]);
                }
                if cat == "Leak"@ {
                    assert(cat[0] == "Leak"@[0]);
                }
                if cat == "Overlap"@ {
                    assert(cat[0] == "Overlap"@[0]);
                }
                if cat == "Param"@ {
                    assert(cat[0] == "Param"@[0]);
                }
            }
            assert(cat.subrange(0, 5) =~= "Value"@);
            assert(has_prefix(cat, "Value"@));
            assert(cat.skip(5) =~= dec_digits(n));
            assert(dec_parse(dec_digits(n)) == Option::Some(n));
        },
        KindModel::Other { tool_name, raw_type } => {
            let tt = "?"@ + tool_name;
            assert(tt[0] == '?');
            assert(tt != mc) by {
                if tt == mc {
                    assert(tt[0] == 'M');
                }
            }
            assert forall|j: int| 0 <= j < tt.len() implies tt[j] != ':' && tt[j] != ',' by {
                if j > 0 {
                    assert(tt[j] == tool_name[j - 1]);
                    if tt[j] == ':' {
                        assert(tool_name.contains(':'));
                    }
                    if tt[j] == ',' {
                        assert(tool_name.contains(','));
                    }
                }
            }
            assert(!tt.contains(':') && !tt.contains(','));
        },
    }
}

/// Law (round trip): rendering a well-formed record and re-parsing the
/// rendered block yields exactly one record with identical name, extra
/// information and frames; a structured kind returns identical, while a
/// catch-all kind returns with the rendered `?` marker kept in front of
/// its tool name (re-reading the marker as part of the tool name).
pub proof fn lemma_render_parse_round_trip(m: SuppressionModel)
    requires
        round_trippable(m),
    ensures
        parse_lines(suppression_lines(m)) == Result::<Seq<SuppressionModel>, DiagModel>::Ok(
            seq![
                (SuppressionModel {
                    name: m.name,
                    kind: reparsed_kind(m.kind),
                    extra_info: m.extra_info,
                    frames: m.frames,
                }),
            ],
        ),
{
    lemma_resolve_rendered_kind(m.kind);
    let tt = kind_tool_text(m.kind);
    let cat = kind_cat_text(m.kind);
    let es = opt_lines(m.extra_info);
    assert(kind_text(m.kind) == tt + ":"@ + cat);
    assert(suppression_lines(m) == block_lines(m.name, tt, cat, es, m.frames));
    assert(forall|k: int| 0 <= k < es.len() ==> wf_extra_line(#[trigger] es[k]));
    lemma_single_tool_block(m.name, tt, cat, es, m.frames);
    assert(extras_opt(es) == m.extra_info) by {
        match m.extra_info {
            Option::None => {
                assert(es.len() == 0);
            },
            Option::Some(v) => {
                assert(es == v && v.len() > 0);
            },
        }
    }
}

/// A frame whose glob brings no newline into its rendered line.
pub open spec fn frame_newline_free(f: FrameModel) -> bool {
    match f {
        FrameModel::Wildcard => true,
        FrameModel::Obj { glob } => !glob.contains('\n'),
        FrameModel::Fun { glob } => !glob.contains('\n'),
    }
}

/// No text carried by the record holds a newline, so its rendered
/// block keeps one line of text per line of the model.
pub open spec fn newline_free(m: SuppressionModel) -> bool {
    &&& !m.name.contains('\n')
    &&& match m.kind {
        KindModel::Other { tool_name, raw_type } => !tool_name.contains('\n')
            && !raw_type.contains('\n'),
        _ => true,
    }
    &&& match m.extra_info {
        Option::None => true,
        Option::Some(es) => forall|k: int| 0 <= k < es.len() ==> !(#[trigger] es[k]).contains('\n'),
    }
    &&& forall|k: int| 0 <= k < m.frames.len() ==> frame_newline_free(#[trigger] m.frames[k])
}

/// The rendered tool/category line holds no newline.
pub proof fn lemma_kind_text_newline_free(k: KindModel)
    requires
        match k {
            KindModel::Other { tool_name, raw_type } => !tool_name.contains('\n')
                && !raw_type.contains('\n'),
            _ => true,
        },
    ensures
        !kind_text(k).contains('\n'),
{
    reveal_strlit("Memcheck");
    reveal_strlit(":");
    reveal_strlit("Addr");
    reveal_strlit("Cond");
    reveal_strlit("Free");
    reveal_strlit("Leak");
    reveal_strlit("Overlap");
    reveal_strlit("Param");
    reveal_strlit("Value");
    reveal_strlit("?");
    let mc = "Memcheck"@;
    assert forall|j: int| 0 <= j < mc.len() implies mc[j] != '\n' by {}
    assert(!mc.contains('\n'));
    assert forall|j: int| 0 <= j < ":"@.len() implies ":"@[j] != '\n' by {}
    assert(!":"@.contains('\n'));
    let tt = kind_tool_text(k);
    let cat = kind_cat_text(k);
    assert(!tt.contains('\n')) by {
        match k {
            KindModel::Other { tool_name, .. } => {
                assert forall|j: int| 0 <= j < "?"@.len() implies "?"@[j] != '\n' by {}
                assert(!"?"@.contains('\n'));
                crate::text::lemma_concat_no_char("?"@, tool_name, '\n');
            },
            _ => {},
        }
    }
    assert(!cat.contains('\n')) by {
        match k {
            KindModel::Addr(n) => {
                lemma_dec_digits(n);
                let d = dec_digits(n);
                assert forall|j: int| 0 <= j < d.len() implies d[j] != '\n' by {
                    assert(is_digit_char(d[j]));
                }
                assert(!d.contains('\n'));
                assert forall|j: int| 0 <= j < "Addr"@.len() implies "Addr"@[j] != '\n' by {}
                assert(!"Addr"@.contains('\n'));
                crate::text::lemma_concat_no_char("Addr"@, d, '\n');
            },
            KindModel::Cond => {
                assert forall|j: int| 0 <= j < "Cond"@.len() implies "Cond"@[j] != '\n' by {}
            },
            KindModel::Free => {
                assert forall|j: int| 0 <= j < "Free"@.len() implies "Free"@[j] != '\n' by {}
            },
            KindModel::Leak => {
                assert forall|j: int| 0 <= j < "Leak"@.len() implies "Leak"@[j] != '\n' by {}
            },
            KindModel::Overlap => {
                assert forall|j: int| 0 <= j < "Overlap"@.len() implies "Overlap"@[j] != '\n' by {}
            },
            KindModel::Param => {
                assert forall|j: int| 0 <= j < "Param"@.len() implies "Param"@[j] != '\n' by {}
            },
            KindModel::Value(n) => {
                lemma_dec_digits(n);
                let d = dec_digits(n);
                assert forall|j: int| 0 <= j < d.len() implies d[j] != '\n' by {
                    assert(is_digit_char(d[j]));
                }
                assert(!d.contains('\n'));
                assert forall|j: int| 0 <= j < "Value"@.len() implies "Value"@[j] != '\n' by {}
                assert(!"Value"@.contains('\n'));
                crate::text::lemma_concat_no_char("Value"@, d, '\n');
            },
            KindModel::Other { .. } => {},
        }
    }
    crate::text::lemma_concat_no_char(tt, ":"@, '\n');
    crate::text::lemma_concat_no_char(tt + ":"@, cat, '\n');
}

/// The rendered line of a newline-free frame holds no newline.
pub proof fn lemma_frame_text_newline_free(f: FrameModel)
    requires
        frame_newline_free(f),
    ensures
        !frame_text(f).contains('\n'),
{
    reveal_strlit("...");
    reveal_strlit("obj:");
    reveal_strlit("fun:");
    match f {
        FrameModel::Wildcard => {
            assert forall|j: int| 0 <= j < "..."@.len() implies "..."@[j] != '\n' by {}
        },
        FrameModel::Obj { glob } => {
            assert forall|j: int| 0 <= j < "obj:"@.len() implies "obj:"@[j] != '\n' by {}
            assert(!"obj:"@.contains('\n'));
            crate::text::lemma_concat_no_char("obj:"@, glob, '\n');
        },
        FrameModel::Fun { glob } => {
            assert forall|j: int| 0 <= j < "fun:"@.len() implies "fun:"@[j] != '\n' by {}
            assert(!"fun:"@.contains('\n'));
            crate::text::lemma_concat_no_char("fun:"@, glob, '\n');
        },
    }
}

/// Law (textual round trip): splitting the rendered text of a
/// well-formed, newline-free record on newlines and parsing the lines
/// yields exactly one record with identical name, extra information
/// and frames, and the kind as the rendered block reads it back.
pub proof fn lemma_render_text_round_trip(m: SuppressionModel)
    requires
        round_trippable(m),
        newline_free(m),
    ensures
        parse_lines(split_seq(crate::render::suppression_text(m), '\n')) == Result::<
            Seq<SuppressionModel>,
            DiagModel,
        >::Ok(
            seq![
                (SuppressionModel {
                    name: m.name,
                    kind: reparsed_kind(m.kind),
                    extra_info: m.extra_info,
                    frames: m.frames,
                }),
            ],
        ),
{
    reveal_strlit("{");
    reveal_strlit("}");
    reveal_strlit("   ");
    let sl = suppression_lines(m);
    let body = crate::render::body_lines(m);
    assert(!"{"@.contains('\n')) by {
        assert forall|j: int| 0 <= j < "{"@.len() implies "{"@[j] != '\n' by {}
    }
    assert(!"}"@.contains('\n')) by {
        assert forall|j: int| 0 <= j < "}"@.len() implies "}"@[j] != '\n' by {}
    }
    assert(!"   "@.contains('\n')) by {
        assert forall|j: int| 0 <= j < "   "@.len() implies "   "@[j] != '\n' by {}
    }
    assert forall|j: int| 0 <= j < body.len() implies !(#[trigger] body[j]).contains('\n') by {
        let es = opt_lines(m.extra_info);
        if j == 0 {
            assert(body[j] == m.name);
        } else if j == 1 {
            assert(body[j] == kind_text(m.kind));
            lemma_kind_text_newline_free(m.kind);
        } else if j < 2 + es.len() {
            assert(body[j] == es[j - 2]);
        } else {
            assert(body[j] == frame_texts(m.frames)[j - 2 - es.len()]);
            assert(body[j] == frame_text(m.frames[j - 2 - es.len()]));
            lemma_frame_text_newline_free(m.frames[j - 2 - es.len()]);
        }
    }
    assert forall|k: int| 0 <= k < sl.len() implies !(#[trigger] sl[k]).contains('\n') by {
        if k == 0 {
            assert(sl[k] == "{"@);
        } else if k == sl.len() - 1 {
            assert(sl[k] == "}"@);
        } else {
            assert(sl[k] == indented(body)[k - 1]);
            assert(sl[k] == "   "@ + body[k - 1]);
            crate::text::lemma_concat_no_char("   "@, body[k - 1], '\n');
        }
    }
    crate::render::lemma_lines_text_splits(sl);
    lemma_render_parse_round_trip(m);
}

} // verus!
