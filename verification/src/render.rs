//! The renderer: canonical text for every data-model value, specified
//! over character sequences and proved for the executable methods. The
//! renderer is total and never fails.

use vstd::prelude::*;

use crate::machine::opt_lines;
use crate::model::Frame;
use crate::model::FrameModel;
use crate::model::KindModel;
use crate::model::Suppression;
use crate::model::SuppressionModel;
use crate::model::SuppressionType;
use crate::model::Suppressions;
use crate::text::dec_digits;
use crate::text::dec_string;

verus! {

/// Canonical text of one calling-context frame.
pub open spec fn frame_text(f: FrameModel) -> Seq<char> {
    match f {
        FrameModel::Wildcard => "..."@,
        FrameModel::Obj { glob } => "obj:"@ + glob,
        FrameModel::Fun { glob } => "fun:"@ + glob,
    }
}

/// The tool-name part of a rendered suppression type: `Memcheck` for
/// the structured kinds, the kept tool name behind a literal `?` marker
/// for the catch-all kind.
pub open spec fn kind_tool_text(k: KindModel) -> Seq<char> {
    match k {
        KindModel::Other { tool_name, .. } => "?"@ + tool_name,
        _ => "Memcheck"@,
    }
}

/// The category part of a rendered suppression type.
pub open spec fn kind_cat_text(k: KindModel) -> Seq<char> {
    match k {
        KindModel::Addr(n) => "Addr"@ + dec_digits(n),
        KindModel::Cond => "Cond"@,
        KindModel::Free => "Free"@,
        KindModel::Leak => "Leak"@,
        KindModel::Overlap => "Overlap"@,
        KindModel::Param => "Param"@,
        KindModel::Value(n) => "Value"@ + dec_digits(n),
        KindModel::Other { raw_type, .. } => raw_type,
    }
}

/// Canonical text of a suppression type: tool, colon, category.
pub open spec fn kind_text(k: KindModel) -> Seq<char> {
    kind_tool_text(k) + ":"@ + kind_cat_text(k)
}

/// Each line prefixed by the three-space indentation.
pub open spec fn indented(ls: Seq<Seq<char>>) -> Seq<Seq<char>> {
    ls.map(|i: int, l: Seq<char>| "   "@ + l)
}

/// The rendered text of each frame, one line per frame.
pub open spec fn frame_texts(fs: Seq<FrameModel>) -> Seq<Seq<char>> {
    fs.map(|i: int, f: FrameModel| frame_text(f))
}

/// The indented interior of a rendered block: name, type, any extra
/// information, then the frames, one line each.
pub open spec fn body_lines(m: SuppressionModel) -> Seq<Seq<char>> {
    seq![m.name, kind_text(m.kind)] + opt_lines(m.extra_info) + frame_texts(m.frames)
}

/// The lines of a rendered suppression block: `{`, the indented body,
/// `}`.
pub open spec fn suppression_lines(m: SuppressionModel) -> Seq<Seq<char>> {
    seq!["{"@] + indented(body_lines(m)) + seq!["}"@]
}

/// A newline before each line, concatenated.
pub open spec fn joined_tail(ls: Seq<Seq<char>>) -> Seq<char>
    decreases ls.len(),
{
    if ls.len() == 0 {
        Seq::empty()
    } else {
        seq!['\n'] + ls.first() + joined_tail(ls.drop_first())
    }
}

/// The lines joined by single newlines, with no trailing newline.
pub open spec fn lines_text(ls: Seq<Seq<char>>) -> Seq<char> {
    if ls.len() == 0 {
        Seq::empty()
    } else {
        ls.first() + joined_tail(ls.drop_first())
    }
}

/// Canonical text of one suppression block (no trailing newline).
pub open spec fn suppression_text(m: SuppressionModel) -> Seq<char> {
    lines_text(suppression_lines(m))
}

/// Canonical text of a collection: each block followed by a newline.
pub open spec fn collection_text(ms: Seq<SuppressionModel>) -> Seq<char>
    decreases ms.len(),
{
    if ms.len() == 0 {
        Seq::empty()
    } else {
        suppression_text(ms.first()) + seq!['\n'] + collection_text(ms.drop_first())
    }
}

/// Joining lines after one more line appends a newline and that line.
pub proof fn lemma_joined_tail_push(ls: Seq<Seq<char>>, x: Seq<char>)
    ensures
        joined_tail(ls.push(x)) == joined_tail(ls) + (seq!['\n'] + x),
    decreases ls.len(),
{
    if ls.len() == 0 {
        assert(ls.push(x).len() == 1);
        assert(ls.push(x).first() == x);
        assert(ls.push(x).drop_first() =~= Seq::<Seq<char>>::empty());
        assert(joined_tail(Seq::<Seq<char>>::empty()) == Seq::<char>::empty());
        assert(joined_tail(ls.push(x)) == seq!['\n'] + x + Seq::<char>::empty());
        assert(seq!['\n'] + x + Seq::<char>::empty() =~= Seq::<char>::empty() + (seq!['\n'] + x));
    } else {
        lemma_joined_tail_push(ls.drop_first(), x);
        assert(ls.push(x).first() == ls.first());
        assert(ls.push(x).drop_first() =~= ls.drop_first().push(x));
        assert(joined_tail(ls.push(x)) == seq!['\n'] + ls.first() + (joined_tail(ls.drop_first())
            + (seq!['\n'] + x)));
        assert(seq!['\n'] + ls.first() + (joined_tail(ls.drop_first()) + (seq!['\n'] + x)) =~= (
        seq!['\n'] + ls.first() + joined_tail(ls.drop_first())) + (seq!['\n'] + x));
    }
}

/// Splitting joined newline-free lines on the newline gives the lines
/// back: the joined form loses nothing.
pub proof fn lemma_lines_text_splits(ls: Seq<Seq<char>>)
    requires
        ls.len() > 0,
        forall|k: int| 0 <= k < ls.len() ==> !(#[trigger] ls[k]).contains('\n'),
    ensures
        crate::text::split_seq(lines_text(ls), '\n') == ls,
    decreases ls.len(),
{
    let rest = ls.drop_first();
    if ls.len() == 1 {
        assert(lines_text(ls) == ls.first() + joined_tail(rest));
        assert(joined_tail(rest) == Seq::<char>::empty());
        assert(lines_text(ls) =~= ls[0]);
        crate::text::lemma_split_no_sep(ls[0], '\n');
        assert(seq![ls[0]] =~= ls);
    } else {
        lemma_lines_text_splits(rest);
        assert(joined_tail(rest) == seq!['\n'] + rest.first() + joined_tail(rest.drop_first()));
        assert(lines_text(rest) == rest.first() + joined_tail(rest.drop_first()));
        assert(lines_text(ls) =~= ls[0] + seq!['\n'] + lines_text(rest));
        assert(!ls[0].contains('\n'));
        crate::text::lemma_split_head(ls[0], lines_text(rest), '\n');
        assert(seq![ls[0]] + rest =~= ls);
    }
}

/// Appending one more block extends the collection's text by that
/// block and a newline.
pub proof fn lemma_collection_text_push(ms: Seq<SuppressionModel>, m: SuppressionModel)
    ensures
        collection_text(ms.push(m)) == collection_text(ms) + suppression_text(m) + seq!['\n'],
    decreases ms.len(),
{
    if ms.len() == 0 {
        assert(ms.push(m).first() == m);
        assert(ms.push(m).drop_first() =~= Seq::<SuppressionModel>::empty());
        assert(collection_text(Seq::<SuppressionModel>::empty()) == Seq::<char>::empty());
        assert(collection_text(ms.push(m)) == suppression_text(m) + seq!['\n'] + Seq::<
            char,
        >::empty());
        assert(suppression_text(m) + seq!['\n'] + Seq::<char>::empty() =~= Seq::<char>::empty()
            + suppression_text(m) + seq!['\n']);
    } else {
        lemma_collection_text_push(ms.drop_first(), m);
        assert(ms.push(m).first() == ms.first());
        assert(ms.push(m).drop_first() =~= ms.drop_first().push(m));
        assert(collection_text(ms.push(m)) == suppression_text(ms.first()) + seq!['\n'] + (
        collection_text(ms.drop_first()) + suppression_text(m) + seq!['\n']));
        assert(suppression_text(ms.first()) + seq!['\n'] + (collection_text(ms.drop_first())
            + suppression_text(m) + seq!['\n']) =~= (suppression_text(ms.first()) + seq!['\n']
            + collection_text(ms.drop_first())) + suppression_text(m) + seq!['\n']);
    }
}

impl Frame {
    /// Canonical text of this frame: `...`, `obj:<glob>` or
    /// `fun:<glob>`.
    pub fn render(&self) -> (r: String)
        ensures
            r@ == frame_text(self@),
    {
        match self {
            Frame::FrameWildcard => String::from_str("..."),
            Frame::ObjFrame { glob } => String::from_str("obj:").concat(glob.as_str()),
            Frame::FunFrame { glob } => String::from_str("fun:").concat(glob.as_str()),
        }
    }
}

impl SuppressionType {
    /// Canonical text of this type, `<tool>:<category>`; the catch-all
    /// kind is marked by a leading literal `?`.
    pub fn render(&self) -> (r: String)
        ensures
            r@ == kind_text(self@),
    {
        let r = match self {
            SuppressionType::MemcheckAddr(n) => String::from_str("Memcheck").concat(":").concat(
                "Addr",
            ).concat(dec_string(*n).as_str()),
            SuppressionType::MemcheckCond => String::from_str("Memcheck").concat(":").concat(
                "Cond",
            ),
            SuppressionType::MemcheckFree => String::from_str("Memcheck").concat(":").concat(
                "Free",
            ),
            SuppressionType::MemcheckLeak => String::from_str("Memcheck").concat(":").concat(
                "Leak",
            ),
            SuppressionType::MemcheckOverlap => String::from_str("Memcheck").concat(":").concat(
                "Overlap",
            ),
            SuppressionType::MemcheckParam => String::from_str("Memcheck").concat(":").concat(
                "Param",
            ),
            SuppressionType::MemcheckValue(n) => String::from_str("Memcheck").concat(":").concat(
                "Value",
            ).concat(dec_string(*n).as_str()),
            SuppressionType::OtherType { tool_name, suppression_type } => String::from_str(
                "?",
            ).concat(tool_name.as_str()).concat(":").concat(suppression_type.as_str()),
        };
        proof {
            assert(r@ =~= kind_text(self@));
        }
        r
    }
}

/// Renders the block lines: `{`, then each body line indented, then
/// `}`, joined by newlines with no trailing newline.
fn join_block(body: &Vec<String>) -> (r: String)
    ensures
        r@ == lines_text(seq!["{"@] + indented(body.deep_view()) + seq!["}"@]),
{
    let ghost ind = indented(body.deep_view());
    let mut out = String::from_str("{");
    let mut j: usize = 0;
    proof {
        reveal_strlit("\n");
        assert(ind.take(0) =~= Seq::<Seq<char>>::empty());
        assert(out@ =~= "{"@ + joined_tail(ind.take(0)));
    }
    while j < body.len()
        invariant
            0 <= j <= body@.len(),
            ind == indented(body.deep_view()),
            ind.len() == body@.len(),
            out@ == "{"@ + joined_tail(ind.take(j as int)),
        decreases body@.len() - j,
    {
        let ghost pre = out@;
        out.append("\n");
        out.append("   ");
        out.append(body[j].as_str());
        proof {
            reveal_strlit("\n");
            assert(body.deep_view()[j as int] == body@[j as int]@);
            assert(ind[j as int] == "   "@ + body@[j as int]@);
            assert(ind.take(j as int + 1) =~= ind.take(j as int).push(ind[j as int]));
            lemma_joined_tail_push(ind.take(j as int), ind[j as int]);
            assert(out@ =~= pre + (seq!['\n'] + ind[j as int]));
        }
        j = j + 1;
    }
    out.append("\n");
    out.append("}");
    proof {
        reveal_strlit("\n");
        assert(ind.take(body@.len() as int) =~= ind);
        let all = seq!["{"@] + ind + seq!["}"@];
        assert(all.first() == "{"@);
        assert(all.drop_first() =~= ind.push("}"@));
        lemma_joined_tail_push(ind, "}"@);
        assert(out@ =~= "{"@ + (joined_tail(ind) + (seq!['\n'] + "}"@)));
        assert(lines_text(all) == "{"@ + joined_tail(ind.push("}"@)));
        assert("{"@ + (joined_tail(ind) + (seq!['\n'] + "}"@)) =~= "{"@ + joined_tail(ind.push(
            "}"@,
        )));
    }
    out
}

impl Suppression {
    /// Canonical text of this record: a brace-delimited block with one
    /// indented line for the name, the type, each extra-information
    /// line, and each frame (no trailing newline).
    pub fn render(&self) -> (r: String)
        ensures
            r@ == suppression_text(self@),
    {
        let ghost target = body_lines(self@);
        let mut body: Vec<String> = Vec::new();
        body.push(self.name.clone());
        body.push(self.type_.render());
        proof {
            assert(body.deep_view() =~= target.take(2));
        }
        match &self.opt_extra_info {
            Option::None => {
                proof {
                    assert(opt_lines(self@.extra_info) =~= Seq::<Seq<char>>::empty());
                }
            },
            Option::Some(extra) => {
                let mut k: usize = 0;
                while k < extra.len()
                    invariant
                        0 <= k <= extra@.len(),
                        target == body_lines(self@),
                        self@.extra_info == Option::Some(extra.deep_view()),
                        extra.deep_view().len() == extra@.len(),
                        target.len() == 2 + extra@.len() + self@.frames.len(),
                        body.deep_view() =~= target.take(2 + k as int),
                    decreases extra@.len() - k,
                {
                    let ghost pre = body@;
                    let ghost pre_dv = body.deep_view();
                    let item = extra[k].clone();
                    body.push(item);
                    proof {
                        crate::model::lemma_deep_push_vec(pre, pre_dv, &body, item);
                        assert(extra.deep_view()[k as int] == extra@[k as int]@);
                        assert(target[2 + k as int] == extra@[k as int]@);
                        assert(body.deep_view() =~= target.take(2 + k as int + 1));
                    }
                    k = k + 1;
                }
            },
        }
        let ghost fills = frame_texts(self@.frames);
        let ghost base = 2 + opt_lines(self@.extra_info).len();
        proof {
            assert(body.deep_view() =~= target.take(base as int));
        }
        let mut k: usize = 0;
        while k < self.frames.len()
            invariant
                0 <= k <= self.frames@.len(),
                target == body_lines(self@),
                fills == frame_texts(self@.frames),
                base == 2 + opt_lines(self@.extra_info).len(),
                self@.frames.len() == self.frames@.len(),
                target.len() == base + self@.frames.len(),
                body.deep_view() =~= target.take(base + k as int),
            decreases self.frames@.len() - k,
        {
            let ghost pre = body@;
            let ghost pre_dv = body.deep_view();
            let item = self.frames[k].render();
            body.push(item);
            proof {
                crate::model::lemma_deep_push_vec(pre, pre_dv, &body, item);
                assert(self.frames.deep_view()[k as int] == self.frames@[k as int]@);
                assert(fills[k as int] == frame_text(self.frames@[k as int]@));
                assert(target[base + k as int] == fills[k as int]);
                assert(body.deep_view() =~= target.take(base + k as int + 1));
            }
            k = k + 1;
        }
        proof {
            assert(body.deep_view() =~= target);
        }
        let r = join_block(&body);
        r
    }
}

impl Suppressions {
    /// Canonical text of the collection: each record's block, one per
    /// line group, in collection order, each followed by a newline.
    pub fn render(&self) -> (r: String)
        ensures
            r@ == collection_text(self@),
    {
        let recs = self.suppressions();
        let mut out = String::new();
        let mut j: usize = 0;
        proof {
            reveal_strlit("\n");
            assert(self@.take(0) =~= Seq::<SuppressionModel>::empty());
            assert(out@ =~= collection_text(self@.take(0)));
        }
        while j < recs.len()
            invariant
                0 <= j <= recs@.len(),
                recs.deep_view() == self@,
                self@.len() == recs@.len(),
                out@ == collection_text(self@.take(j as int)),
            decreases recs@.len() - j,
        {
            let block = recs[j].render();
            out.append(block.as_str());
            out.append("\n");
            proof {
                reveal_strlit("\n");
                assert(recs.deep_view()[j as int] == recs@[j as int]@);
                assert(self@.take(j as int + 1) =~= self@.take(j as int).push(self@[j as int]));
                lemma_collection_text_push(self@.take(j as int), self@[j as int]);
                assert(out@ =~= collection_text(self@.take(j as int + 1)));
            }
            j = j + 1;
        }
        proof {
            assert(self@.take(self@.len() as int) =~= self@);
        }
        out
    }
}

} // verus!
