//! How messages, broadcasts and actions are written out.

use crate::action::{BroadcastPrimitive, BroadcastView};
use crate::context::{ContextView, GeneralContext};
use crate::message::MessageTypeExpression;
use crate::sets::{is_single, set_sole_element};
use crate::trace::{TraceAction, TraceActionKind};
use vstd::prelude::*;
use vstd::string::StringExecFns;

verus! {

/// What a piece of text stands for; a renderer picks its colour by it.
#[derive(Debug, Clone, Copy, PartialEq, Eq, Structural)]
pub enum TextKind {
    GrammarSymbol,
    Message,
    MessageKind,
}

/// A piece of the text of a message expression.
#[derive(Debug, PartialEq, Eq)]
pub struct TextPiece {
    pub text: String,
    pub kind: TextKind,
}

pub struct PieceView {
    pub text: Seq<char>,
    pub kind: TextKind,
}

impl View for TextPiece {
    type V = PieceView;

    open spec fn view(&self) -> PieceView {
        PieceView { text: self.text@, kind: self.kind }
    }
}

/// The pieces of a list, by their views.
pub open spec fn pieces_of(v: Seq<TextPiece>) -> Seq<PieceView> {
    Seq::new(v.len(), |i: int| v[i]@)
}

/// A symbol of the grammar.
pub open spec fn symbol(text: Seq<char>) -> PieceView {
    PieceView { text, kind: TextKind::GrammarSymbol }
}

/// The pieces as they stand, or between brackets.
pub open spec fn bracketed(pieces: Seq<PieceView>, bare: bool) -> Seq<PieceView> {
    if bare {
        pieces
    } else {
        seq![symbol("("@)] + pieces + seq![symbol(")"@)]
    }
}

impl MessageTypeExpression {
    /// Every message and every named type in the expression is one of the
    /// table.
    pub open spec fn names_known(self, ctx: ContextView) -> bool
        decreases self,
    {
        match self {
            MessageTypeExpression::Singleton(m) => m < ctx.ms_num(),
            MessageTypeExpression::NamedType(t) => t < ctx.mt_num() && t < ctx.mt_names.len(),
            MessageTypeExpression::Union(a, b) => a.names_known(ctx) && b.names_known(ctx),
            MessageTypeExpression::Intersection(a, b) => a.names_known(ctx) && b.names_known(ctx),
            MessageTypeExpression::SetMinus(a, b) => a.names_known(ctx) && b.names_known(ctx),
        }
    }

    /// A message or a named type.
    pub open spec fn is_atomic(self) -> bool {
        self is Singleton || self is NamedType
    }

    /// The text of the expression, in pieces: a message between braces, a
    /// named type by its name, and an operator between its operands. An
    /// operand stands between brackets unless it is atomic, or a union in a
    /// union, or an intersection in an intersection.
    pub open spec fn pieces(self, ctx: ContextView) -> Seq<PieceView>
        decreases self,
    {
        match self {
            MessageTypeExpression::Singleton(m) => seq![
                symbol("{"@),
                PieceView { text: ctx.ms_names[m as int], kind: TextKind::Message },
                symbol("}"@),
            ],
            MessageTypeExpression::NamedType(t) => seq![
                PieceView { text: ctx.mt_names[t as int], kind: TextKind::MessageKind },
            ],
            MessageTypeExpression::Union(a, b) => bracketed(
                a.pieces(ctx),
                a.is_atomic() || *a is Union,
            ) + seq![symbol("∪"@)] + bracketed(b.pieces(ctx), b.is_atomic() || *b is Union),
            MessageTypeExpression::Intersection(a, b) => bracketed(
                a.pieces(ctx),
                a.is_atomic() || *a is Intersection,
            ) + seq![symbol("∩"@)] + bracketed(
                b.pieces(ctx),
                b.is_atomic() || *b is Intersection,
            ),
            MessageTypeExpression::SetMinus(a, b) => bracketed(a.pieces(ctx), a.is_atomic())
                + seq![symbol("\\"@)] + bracketed(b.pieces(ctx), b.is_atomic()),
        }
    }
}

/// The texts of the pieces, one after the other.
pub open spec fn flattened(pieces: Seq<PieceView>) -> Seq<char>
    decreases pieces.len(),
{
    if pieces.len() == 0 {
        Seq::empty()
    } else {
        flattened(pieces.drop_last()) + pieces.last().text
    }
}

/// The names with the separator between them.
pub open spec fn joined(names: Seq<Seq<char>>, sep: Seq<char>) -> Seq<char>
    decreases names.len(),
{
    if names.len() == 0 {
        Seq::empty()
    } else if names.len() == 1 {
        names[0]
    } else {
        joined(names.drop_last(), sep) + sep + names.last()
    }
}

/// The sign of a kind of action: `!` for an emission, `?` for a reception.
pub open spec fn kind_sign(kind: TraceActionKind) -> Seq<char> {
    match kind {
        TraceActionKind::Emission => "!"@,
        TraceActionKind::Reception => "?"@,
    }
}

/// The names of the lifelines.
pub open spec fn lifeline_names(ids: Seq<usize>, ctx: ContextView) -> Seq<Seq<char>> {
    Seq::new(ids.len(), |i: int| ctx.lf_names[ids[i] as int])
}

impl BroadcastView {
    /// The origin and the targets are lifelines of the table, and the
    /// messages are known.
    pub open spec fn names_known(self, ctx: ContextView) -> bool {
        &&& self.message_type.names_known(ctx)
        &&& self.origin matches Some(lf) ==> lf < ctx.lf_num()
        &&& forall|i: int| 0 <= i < self.targets.len() ==> #[trigger] self.targets[i] < ctx.lf_num()
    }

    /// The targets between brackets, with commas; nothing without target.
    pub open spec fn targets_label(self, ctx: ContextView) -> Seq<char> {
        if self.targets.len() == 0 {
            Seq::empty()
        } else {
            "("@ + joined(lifeline_names(self.targets, ctx), ","@) + ")"@
        }
    }

    /// The label of the broadcast: its origin and `!` if it is still to be
    /// emitted, or else `?` after the targets; the targets, and the
    /// message.
    pub open spec fn label(self, ctx: ContextView) -> Seq<char> {
        let message = flattened(self.message_type.pieces(ctx));
        match self.origin {
            None => self.targets_label(ctx) + kind_sign(TraceActionKind::Reception) + message,
            Some(lf) => ctx.lf_names[lf as int] + kind_sign(TraceActionKind::Emission)
                + self.targets_label(ctx) + message,
        }
    }
}

fn piece(text: &str, kind: TextKind) -> (r: TextPiece)
    ensures
        r@ == (PieceView { text: text@, kind }),
{
    TextPiece { text: String::from_str(text), kind }
}

fn sign(kind: TraceActionKind) -> (r: &'static str)
    ensures
        r@ == kind_sign(kind),
{
    match kind {
        TraceActionKind::Emission => "!",
        TraceActionKind::Reception => "?",
    }
}

/// Appends `pieces` to `out`, between brackets unless `bare`.
fn push_bracketed(out: &mut Vec<TextPiece>, pieces: Vec<TextPiece>, bare: bool)
    ensures
        pieces_of(final(out)@) == pieces_of(old(out)@) + bracketed(pieces_of(pieces@), bare),
{
    let ghost start = pieces_of(out@);
    let mut pieces = pieces;
    let ghost inner = pieces_of(pieces@);
    if !bare {
        out.push(piece("(", TextKind::GrammarSymbol));
    }
    let ghost before = out@;
    out.append(&mut pieces);
    proof {
        assert(pieces_of(out@) =~= pieces_of(before) + inner);
    }
    if !bare {
        out.push(piece(")", TextKind::GrammarSymbol));
        proof {
            assert(pieces_of(out@) =~= start + bracketed(inner, bare));
        }
    } else {
        proof {
            assert(pieces_of(out@) =~= start + bracketed(inner, bare));
        }
    }
}

fn is_atomic(message: &MessageTypeExpression) -> (r: bool)
    ensures
        r == message.is_atomic(),
{
    match message {
        MessageTypeExpression::Singleton(_) => true,
        MessageTypeExpression::NamedType(_) => true,
        _ => false,
    }
}

fn is_union(message: &MessageTypeExpression) -> (r: bool)
    ensures
        r == (*message is Union),
{
    match message {
        MessageTypeExpression::Union(_, _) => true,
        _ => false,
    }
}

fn is_intersection(message: &MessageTypeExpression) -> (r: bool)
    ensures
        r == (*message is Intersection),
{
    match message {
        MessageTypeExpression::Intersection(_, _) => true,
        _ => false,
    }
}

/// The text of a message expression, in pieces: see
/// `MessageTypeExpression::pieces`.
pub fn diagram_repr_message(message: &MessageTypeExpression, gen_ctx: &GeneralContext) -> (r: Vec<
    TextPiece,
>)
    requires
        message.names_known(gen_ctx@),
    ensures
        pieces_of(r@) == message.pieces(gen_ctx@),
    decreases *message,
{
    let mut ret: Vec<TextPiece> = Vec::new();
    match message {
        MessageTypeExpression::Singleton(ms_id) => {
            let label = match gen_ctx.get_ms_name(*ms_id) {
                Ok(name) => name,
                Err(_) => String::new(),
            };
            ret.push(piece("{", TextKind::GrammarSymbol));
            ret.push(TextPiece { text: label, kind: TextKind::Message });
            ret.push(piece("}", TextKind::GrammarSymbol));
            proof {
                assert(pieces_of(ret@) =~= message.pieces(gen_ctx@));
            }
        },
        MessageTypeExpression::NamedType(mt_id) => {
            let label = match gen_ctx.get_mt_name(*mt_id) {
                Ok(name) => name,
                Err(_) => String::new(),
            };
            ret.push(TextPiece { text: label, kind: TextKind::MessageKind });
            proof {
                assert(pieces_of(ret@) =~= message.pieces(gen_ctx@));
            }
        },
        MessageTypeExpression::Union(mte1, mte2) => {
            let v1 = diagram_repr_message(mte1, gen_ctx);
            let v2 = diagram_repr_message(mte2, gen_ctx);
            proof {
                assert(pieces_of(ret@) =~= Seq::<PieceView>::empty());
            }
            push_bracketed(&mut ret, v1, is_atomic(mte1) || is_union(mte1));
            let ghost first = pieces_of(ret@);
            ret.push(piece("∪", TextKind::GrammarSymbol));
            proof {
                assert(pieces_of(ret@) =~= first + seq![symbol("∪"@)]);
            }
            push_bracketed(&mut ret, v2, is_atomic(mte2) || is_union(mte2));
            proof {
                assert(pieces_of(ret@) =~= message.pieces(gen_ctx@));
            }
        },
        MessageTypeExpression::Intersection(mte1, mte2) => {
            let v1 = diagram_repr_message(mte1, gen_ctx);
            let v2 = diagram_repr_message(mte2, gen_ctx);
            proof {
                assert(pieces_of(ret@) =~= Seq::<PieceView>::empty());
            }
            push_bracketed(&mut ret, v1, is_atomic(mte1) || is_intersection(mte1));
            let ghost first = pieces_of(ret@);
            ret.push(piece("∩", TextKind::GrammarSymbol));
            proof {
                assert(pieces_of(ret@) =~= first + seq![symbol("∩"@)]);
            }
            push_bracketed(&mut ret, v2, is_atomic(mte2) || is_intersection(mte2));
            proof {
                assert(pieces_of(ret@) =~= message.pieces(gen_ctx@));
            }
        },
        MessageTypeExpression::SetMinus(mte1, mte2) => {
            let v1 = diagram_repr_message(mte1, gen_ctx);
            let v2 = diagram_repr_message(mte2, gen_ctx);
            proof {
                assert(pieces_of(ret@) =~= Seq::<PieceView>::empty());
            }
            push_bracketed(&mut ret, v1, is_atomic(mte1));
            let ghost first = pieces_of(ret@);
            ret.push(piece("\\", TextKind::GrammarSymbol));
            proof {
                assert(pieces_of(ret@) =~= first + seq![symbol("\\"@)]);
            }
            push_bracketed(&mut ret, v2, is_atomic(mte2));
            proof {
                assert(pieces_of(ret@) =~= message.pieces(gen_ctx@));
            }
        },
    }
    ret
}

/// The texts of the pieces, one after the other.
pub fn flatten(pieces: &Vec<TextPiece>) -> (r: String)
    ensures
        r@ == flattened(pieces_of(pieces@)),
{
    let mut text = String::new();
    let mut i: usize = 0;
    proof {
        assert(pieces_of(pieces@).take(0) =~= Seq::<PieceView>::empty());
    }
    while i < pieces.len()
        invariant
            i <= pieces.len(),
            text@ == flattened(pieces_of(pieces@).take(i as int)),
        decreases pieces.len() - i,
    {
        proof {
            assert(pieces_of(pieces@).take(i + 1).drop_last() =~= pieces_of(pieces@).take(i as int));
            assert(pieces_of(pieces@).take(i + 1).last() == pieces@[i as int]@);
        }
        text.append(pieces[i].text.as_str());
        i += 1;
    }
    proof {
        assert(pieces_of(pieces@).take(pieces.len() as int) =~= pieces_of(pieces@));
    }
    text
}

/// The text of a message expression.
pub fn text_repr_message(message: &MessageTypeExpression, gen_ctx: &GeneralContext) -> (r: String)
    requires
        message.names_known(gen_ctx@),
    ensures
        r@ == flattened(message.pieces(gen_ctx@)),
{
    let pieces = diagram_repr_message(message, gen_ctx);
    flatten(&pieces)
}

/// The names of the lifelines, with commas between them.
fn join_lifelines(gen_ctx: &GeneralContext, ids: &Vec<usize>) -> (r: String)
    requires
        forall|i: int| 0 <= i < ids@.len() ==> #[trigger] ids@[i] < gen_ctx@.lf_num(),
    ensures
        r@ == joined(lifeline_names(ids@, gen_ctx@), ","@),
{
    let ghost names = lifeline_names(ids@, gen_ctx@);
    let mut text = String::new();
    let mut i: usize = 0;
    proof {
        assert(names.take(0) =~= Seq::<Seq<char>>::empty());
    }
    while i < ids.len()
        invariant
            i <= ids.len(),
            names == lifeline_names(ids@, gen_ctx@),
            forall|k: int| 0 <= k < ids@.len() ==> #[trigger] ids@[k] < gen_ctx@.lf_num(),
            text@ == joined(names.take(i as int), ","@),
        decreases ids.len() - i,
    {
        proof {
            assert(names.take(i + 1).drop_last() =~= names.take(i as int));
            assert(names.take(i + 1).last() == names[i as int]);
            if i == 0 {
                assert(names.take(1)[0] == names[0]);
                assert(text@ + names[0] =~= names[0]);
            }
        }
        if i > 0 {
            text.append(",");
        }
        let name = match gen_ctx.get_lf_name(ids[i]) {
            Ok(name) => name,
            Err(_) => String::new(),
        };
        text.append(name.as_str());
        i += 1;
    }
    proof {
        assert(names.take(ids.len() as int) =~= names);
    }
    text
}

/// The label of a broadcast: see `BroadcastView::label`.
pub fn broadcast_prim_as_gv_label(gen_ctx: &GeneralContext, bp: &BroadcastPrimitive) -> (r: String)
    requires
        bp@.names_known(gen_ctx@),
    ensures
        r@ == bp@.label(gen_ctx@),
{
    let msg_label = text_repr_message(&bp.message_type, gen_ctx);
    let mut targs_label = String::new();
    if bp.targets.len() > 0 {
        targs_label.append("(");
        proof {
            assert forall|i: int| 0 <= i < bp.targets@.len() implies #[trigger] bp.targets@[i]
                < gen_ctx@.lf_num() by {
                assert(bp@.targets[i] < gen_ctx@.lf_num());
            }
        }
        let names = join_lifelines(gen_ctx, &bp.targets);
        targs_label.append(names.as_str());
        targs_label.append(")");
    }
    proof {
        assert(targs_label@ =~= bp@.targets_label(gen_ctx@));
    }
    match bp.origin_on_emission {
        None => {
            let mut label = targs_label;
            label.append(sign(TraceActionKind::Reception));
            label.append(msg_label.as_str());
            label
        },
        Some(source) => {
            let mut label = match gen_ctx.get_lf_name(source) {
                Ok(name) => name,
                Err(_) => String::new(),
            };
            label.append(sign(TraceActionKind::Emission));
            label.append(targs_label.as_str());
            label.append(msg_label.as_str());
            label
        },
    }
}

/// The action as a trace file holds it: the lifeline, the sign of the kind
/// of action, and the message. The action has to stand for one message.
pub fn trace_action_as_htf_encoding(gen_ctx: &GeneralContext, action: &TraceAction) -> (r: String)
    requires
        action.well_formed(gen_ctx@),
        action.lf_id < gen_ctx@.lf_num(),
        is_single(action.message.resolve_spec(gen_ctx@)),
        action.message.resolve_spec(gen_ctx@).choose() < gen_ctx@.ms_num(),
    ensures
        r@ == gen_ctx@.lf_names[action.lf_id as int] + kind_sign(action.act_kind)
            + gen_ctx@.ms_names[action.message.resolve_spec(gen_ctx@).choose() as int],
{
    let mut text = match gen_ctx.get_lf_name(action.lf_id) {
        Ok(name) => name,
        Err(_) => String::new(),
    };
    let resolved = action.message.resolve(gen_ctx);
    let ms_name = match set_sole_element(&resolved) {
        Some(ms_id) => match gen_ctx.get_ms_name(ms_id) {
            Ok(name) => name,
            Err(_) => String::new(),
        },
        None => String::new(),
    };
    text.append(sign(action.act_kind));
    text.append(ms_name.as_str());
    text
}

} // verus!
