//! From names to identifiers: the parts of a textual model, once a reader
//! has cut the text in names, are resolved against the symbol table.

use crate::action::{BroadcastPrimitive, BroadcastView};
use crate::context::{names_of, position_of, ContextView, GeneralContext};
use crate::ids::ids_contain;
use crate::interaction::{Interaction, Term};
use crate::message::MessageTypeExpression;
use crate::trace::{TraceAction, TraceActionKind};
use std::collections::HashSet;
use vstd::prelude::*;

verus! {

/// What is wrong with the order or the content of the sections of a
/// signature.
#[derive(Debug, PartialEq, Eq)]
pub enum SetupFault {
    SeveralMessageSections,
    SeveralLifelineSections,
    SeveralTypeSections,
    /// The types are declared before the messages.
    TypesBeforeMessages,
    /// A message that is not declared, and the type that names it.
    UnknownMessageInType(String, String),
}

/// Why a textual model cannot be read.
#[derive(Debug, PartialEq, Eq)]
pub enum HibouParsingError {
    /// The text does not follow the grammar; the reader says how.
    MatchError(String),
    /// A lifeline that is not declared.
    MissingLifelineDeclarationError(String),
    /// A message that is not declared.
    MissingMessageDeclarationError(String),
    /// A lifeline that occurs twice in a co-region.
    OtherDefinitionError(String),
    /// A lifeline that occurs twice among the targets of an emission.
    EmissionDefinitionError(String),
    HsfSetupError(SetupFault),
    /// An action of a lifeline that belongs to another trace.
    NonDisjointTraceComponents,
    /// An action of a lifeline that is not in the group of its trace.
    IllDefinedTraceComponents(usize),
}

pub enum SetupFaultView {
    SeveralMessageSections,
    SeveralLifelineSections,
    SeveralTypeSections,
    TypesBeforeMessages,
    UnknownMessageInType(Seq<char>, Seq<char>),
}

pub enum ParsingErrorView {
    MatchError(Seq<char>),
    MissingLifelineDeclarationError(Seq<char>),
    MissingMessageDeclarationError(Seq<char>),
    OtherDefinitionError(Seq<char>),
    EmissionDefinitionError(Seq<char>),
    HsfSetupError(SetupFaultView),
    NonDisjointTraceComponents,
    IllDefinedTraceComponents(usize),
}

impl View for SetupFault {
    type V = SetupFaultView;

    open spec fn view(&self) -> SetupFaultView {
        match self {
            SetupFault::SeveralMessageSections => SetupFaultView::SeveralMessageSections,
            SetupFault::SeveralLifelineSections => SetupFaultView::SeveralLifelineSections,
            SetupFault::SeveralTypeSections => SetupFaultView::SeveralTypeSections,
            SetupFault::TypesBeforeMessages => SetupFaultView::TypesBeforeMessages,
            SetupFault::UnknownMessageInType(m, t) => SetupFaultView::UnknownMessageInType(m@, t@),
        }
    }
}

impl View for HibouParsingError {
    type V = ParsingErrorView;

    open spec fn view(&self) -> ParsingErrorView {
        match self {
            HibouParsingError::MatchError(s) => ParsingErrorView::MatchError(s@),
            HibouParsingError::MissingLifelineDeclarationError(s) => {
                ParsingErrorView::MissingLifelineDeclarationError(s@)
            },
            HibouParsingError::MissingMessageDeclarationError(s) => {
                ParsingErrorView::MissingMessageDeclarationError(s@)
            },
            HibouParsingError::OtherDefinitionError(s) => ParsingErrorView::OtherDefinitionError(s@),
            HibouParsingError::EmissionDefinitionError(s) => {
                ParsingErrorView::EmissionDefinitionError(s@)
            },
            HibouParsingError::HsfSetupError(f) => ParsingErrorView::HsfSetupError(f@),
            HibouParsingError::NonDisjointTraceComponents => {
                ParsingErrorView::NonDisjointTraceComponents
            },
            HibouParsingError::IllDefinedTraceComponents(lf) => {
                ParsingErrorView::IllDefinedTraceComponents(*lf)
            },
        }
    }
}

/// The fault of a lifeline that occurs twice: among targets, or in a
/// co-region.
pub open spec fn twice(name: Seq<char>, in_targets: bool) -> ParsingErrorView {
    if in_targets {
        ParsingErrorView::EmissionDefinitionError(name)
    } else {
        ParsingErrorView::OtherDefinitionError(name)
    }
}

/// The identifiers of the lifelines that the names stand for, or the first
/// fault: a name that is not declared, or a lifeline that came before.
#[verifier::opaque]
pub open spec fn lifelines_of(table: Seq<Seq<char>>, names: Seq<Seq<char>>, in_targets: bool) -> Result<
    Seq<usize>,
    ParsingErrorView,
>
    decreases names.len(),
{
    if names.len() == 0 {
        Ok(Seq::empty())
    } else {
        match lifelines_of(table, names.drop_last(), in_targets) {
            Err(e) => Err(e),
            Ok(ids) => match position_of(table, names.last()) {
                None => Err(ParsingErrorView::MissingLifelineDeclarationError(names.last())),
                Some(id) => if ids.contains(id) {
                    Err(twice(names.last(), in_targets))
                } else {
                    Ok(ids.push(id))
                },
            },
        }
    }
}

proof fn lemma_lifelines_fault_stays(
    table: Seq<Seq<char>>,
    names: Seq<Seq<char>>,
    in_targets: bool,
    n: int,
)
    requires
        0 <= n <= names.len(),
        lifelines_of(table, names.take(n), in_targets) is Err,
    ensures
        lifelines_of(table, names, in_targets) == lifelines_of(table, names.take(n), in_targets),
    decreases names.len() - n,
{
    reveal_with_fuel(lifelines_of, 2);
    if n == names.len() {
        assert(names.take(n) =~= names);
    } else {
        assert(names.take(n + 1).drop_last() =~= names.take(n));
        lemma_lifelines_fault_stays(table, names, in_targets, n + 1);
    }
}

proof fn lemma_lifelines_one_more(
    table: Seq<Seq<char>>,
    names: Seq<Seq<char>>,
    in_targets: bool,
    n: int,
    ids: Seq<usize>,
)
    requires
        0 <= n < names.len(),
        lifelines_of(table, names.take(n), in_targets) == Ok::<Seq<usize>, ParsingErrorView>(ids),
    ensures
        lifelines_of(table, names.take(n + 1), in_targets) == match position_of(table, names[n]) {
            None => Err::<Seq<usize>, ParsingErrorView>(
                ParsingErrorView::MissingLifelineDeclarationError(names[n]),
            ),
            Some(id) => if ids.contains(id) {
                Err::<Seq<usize>, ParsingErrorView>(twice(names[n], in_targets))
            } else {
                Ok::<Seq<usize>, ParsingErrorView>(ids.push(id))
            },
        },
{
    reveal_with_fuel(lifelines_of, 2);
    assert(names.take(n + 1).drop_last() =~= names.take(n));
    assert(names.take(n + 1).last() == names[n]);
}

proof fn lemma_lifelines_none(table: Seq<Seq<char>>, in_targets: bool)
    ensures
        lifelines_of(table, Seq::empty(), in_targets) == Ok::<Seq<usize>, ParsingErrorView>(
            Seq::empty(),
        ),
{
    reveal_with_fuel(lifelines_of, 2);
}

/// The expression that a name stands for: a message, or else a named type.
pub open spec fn message_of(ctx: ContextView, name: Seq<char>) -> Result<
    MessageTypeExpression,
    ParsingErrorView,
> {
    match position_of(ctx.ms_names, name) {
        Some(ms_id) => Ok(MessageTypeExpression::Singleton(ms_id)),
        None => match position_of(ctx.mt_names, name) {
            Some(mt_id) => Ok(MessageTypeExpression::NamedType(mt_id)),
            None => Err(ParsingErrorView::MissingMessageDeclarationError(name)),
        },
    }
}

/// The targets of a broadcast, as they are written: one lifeline, several
/// lifelines, or the environment.
pub enum TargetsText {
    One(String),
    Several(Vec<String>),
    Environment,
}

pub enum TargetsView {
    One(Seq<char>),
    Several(Seq<Seq<char>>),
    Environment,
}

impl View for TargetsText {
    type V = TargetsView;

    open spec fn view(&self) -> TargetsView {
        match self {
            TargetsText::One(name) => TargetsView::One(name@),
            TargetsText::Several(names) => TargetsView::Several(names_of(names@)),
            TargetsText::Environment => TargetsView::Environment,
        }
    }
}

/// The lifelines that the written targets stand for.
pub open spec fn targets_of(table: Seq<Seq<char>>, targets: TargetsView) -> Result<
    Seq<usize>,
    ParsingErrorView,
> {
    match targets {
        TargetsView::One(name) => match position_of(table, name) {
            None => Err(ParsingErrorView::MissingLifelineDeclarationError(name)),
            Some(id) => Ok(seq![id]),
        },
        TargetsView::Several(names) => lifelines_of(table, names, true),
        TargetsView::Environment => Ok(Seq::empty()),
    }
}

/// The broadcast that is written as an origin, a message and targets; the
/// first name that is not declared is the fault.
pub open spec fn communication_action_of(
    ctx: ContextView,
    origin: Option<Seq<char>>,
    message: Seq<char>,
    targets: TargetsView,
) -> Result<Term, ParsingErrorView> {
    let from = match origin {
        Some(name) => match position_of(ctx.lf_names, name) {
            None => Err(ParsingErrorView::MissingLifelineDeclarationError(name)),
            Some(lf_id) => Ok(Some(lf_id)),
        },
        None => Ok(None),
    };
    match from {
        Err(e) => Err(e),
        Ok(origin_id) => match message_of(ctx, message) {
            Err(e) => Err(e),
            Ok(message_type) => match targets_of(ctx.lf_names, targets) {
                Err(e) => Err(e),
                Ok(target_ids) => Ok(
                    Term::Action(
                        BroadcastView { origin: origin_id, message_type, targets: target_ids },
                    ),
                ),
            },
        },
    }
}

/// The action of a trace that is written as a lifeline, a kind and a
/// message.
pub open spec fn trace_action_of(
    ctx: ContextView,
    lifeline: Seq<char>,
    kind: TraceActionKind,
    message: Seq<char>,
) -> Result<TraceAction, ParsingErrorView> {
    match position_of(ctx.lf_names, lifeline) {
        None => Err(ParsingErrorView::MissingLifelineDeclarationError(lifeline)),
        Some(lf_id) => match position_of(ctx.ms_names, message) {
            None => Err(ParsingErrorView::MissingMessageDeclarationError(message)),
            Some(ms_id) => Ok(
                TraceAction {
                    lf_id,
                    act_kind: kind,
                    message: MessageTypeExpression::Singleton(ms_id),
                },
            ),
        },
    }
}

/// `r` gives what `expected` says, a value by its view and a fault by its
/// view.
pub open spec fn gives_ids(r: Result<Vec<usize>, HibouParsingError>, expected: Result<
    Seq<usize>,
    ParsingErrorView,
>) -> bool {
    match r {
        Ok(ids) => expected == Ok::<Seq<usize>, ParsingErrorView>(ids@),
        Err(e) => expected == Err::<Seq<usize>, ParsingErrorView>(e@),
    }
}

fn resolve_lifelines(gen_ctx: &GeneralContext, names: &Vec<String>, in_targets: bool) -> (r: Result<
    Vec<usize>,
    HibouParsingError,
>)
    ensures
        gives_ids(r, lifelines_of(gen_ctx@.lf_names, names_of(names@), in_targets)),
{
    let ghost table = gen_ctx@.lf_names;
    let ghost texts = names_of(names@);
    let mut ids: Vec<usize> = Vec::new();
    let mut i: usize = 0;
    proof {
        assert(texts.take(0) =~= Seq::<Seq<char>>::empty());
        lemma_lifelines_none(table, in_targets);
    }
    while i < names.len()
        invariant
            i <= names.len(),
            table == gen_ctx@.lf_names,
            texts == names_of(names@),
            lifelines_of(table, texts.take(i as int), in_targets) == Ok::<
                Seq<usize>,
                ParsingErrorView,
            >(ids@),
        decreases names.len() - i,
    {
        proof {
            lemma_lifelines_one_more(table, texts, in_targets, i as int, ids@);
            assert(texts[i as int] == names@[i as int]@);
        }
        match gen_ctx.get_lf_id(names[i].as_str()) {
            None => {
                proof {
                    lemma_lifelines_fault_stays(table, texts, in_targets, i + 1);
                }
                return Err(HibouParsingError::MissingLifelineDeclarationError(names[i].clone()));
            },
            Some(lf_id) => {
                if ids_contain(&ids, lf_id) {
                    proof {
                        lemma_lifelines_fault_stays(table, texts, in_targets, i + 1);
                    }
                    if in_targets {
                        return Err(HibouParsingError::EmissionDefinitionError(names[i].clone()));
                    } else {
                        return Err(HibouParsingError::OtherDefinitionError(names[i].clone()));
                    }
                }
                ids.push(lf_id);
            },
        }
        i += 1;
    }
    proof {
        assert(texts.take(names.len() as int) =~= texts);
    }
    Ok(ids)
}

/// The lifelines of a co-region: every name is declared, and no lifeline
/// occurs twice.
pub fn parse_coreg(gen_ctx: &GeneralContext, names: &Vec<String>) -> (r: Result<
    Vec<usize>,
    HibouParsingError,
>)
    ensures
        gives_ids(r, lifelines_of(gen_ctx@.lf_names, names_of(names@), false)),
{
    resolve_lifelines(gen_ctx, names, false)
}

/// The lifelines that the written targets of a broadcast stand for.
pub fn parse_comm_act_targets_as_lifelines(gen_ctx: &GeneralContext, targets: &TargetsText) -> (r:
    Result<Vec<usize>, HibouParsingError>)
    ensures
        gives_ids(r, targets_of(gen_ctx@.lf_names, targets@)),
{
    match targets {
        TargetsText::One(lf_name) => match gen_ctx.get_lf_id(lf_name.as_str()) {
            None => Err(HibouParsingError::MissingLifelineDeclarationError(lf_name.clone())),
            Some(lf_id) => {
                let mut ids: Vec<usize> = Vec::new();
                ids.push(lf_id);
                proof {
                    assert(ids@ =~= seq![lf_id]);
                }
                Ok(ids)
            },
        },
        TargetsText::Several(names) => resolve_lifelines(gen_ctx, names, true),
        TargetsText::Environment => Ok(Vec::new()),
    }
}

/// The expression that a name stands for: a message, or else a named type.
pub fn parse_message(gen_ctx: &GeneralContext, ms_name: &String) -> (r: Result<
    MessageTypeExpression,
    HibouParsingError,
>)
    ensures
        match r {
            Ok(m) => message_of(gen_ctx@, ms_name@) == Ok::<
                MessageTypeExpression,
                ParsingErrorView,
            >(m) && m.well_formed(gen_ctx@),
            Err(e) => message_of(gen_ctx@, ms_name@) == Err::<
                MessageTypeExpression,
                ParsingErrorView,
            >(e@),
        },
{
    proof {
        gen_ctx.lemma_types_have_messages();
    }
    match gen_ctx.get_ms_id(ms_name.as_str()) {
        None => match gen_ctx.get_mt_id(ms_name.as_str()) {
            None => Err(HibouParsingError::MissingMessageDeclarationError(ms_name.clone())),
            Some(mt_id) => Ok(MessageTypeExpression::NamedType(mt_id)),
        },
        Some(ms_id) => Ok(MessageTypeExpression::Singleton(ms_id)),
    }
}

/// The broadcast that is written as an origin, a message and targets.
pub fn parse_communication_action(
    gen_ctx: &GeneralContext,
    origin: &Option<String>,
    message: &String,
    targets: &TargetsText,
) -> (r: Result<Interaction, HibouParsingError>)
    ensures
        match r {
            Ok(i) => communication_action_of(
                gen_ctx@,
                match origin {
                    Some(name) => Some(name@),
                    None => None,
                },
                message@,
                targets@,
            ) == Ok::<Term, ParsingErrorView>(i@) && i@.well_formed(gen_ctx@),
            Err(e) => communication_action_of(
                gen_ctx@,
                match origin {
                    Some(name) => Some(name@),
                    None => None,
                },
                message@,
                targets@,
            ) == Err::<Term, ParsingErrorView>(e@),
        },
{
    let origin_id = match origin {
        Some(origin_name) => match gen_ctx.get_lf_id(origin_name.as_str()) {
            None => {
                return Err(
                    HibouParsingError::MissingLifelineDeclarationError(origin_name.clone()),
                );
            },
            Some(lf_id) => Some(lf_id),
        },
        None => None,
    };
    let message_type = match parse_message(gen_ctx, message) {
        Err(e) => {
            return Err(e);
        },
        Ok(m) => m,
    };
    let target_ids = match parse_comm_act_targets_as_lifelines(gen_ctx, targets) {
        Err(e) => {
            return Err(e);
        },
        Ok(ids) => ids,
    };
    Ok(Interaction::Action(BroadcastPrimitive::new(origin_id, message_type, target_ids)))
}

/// The action of a trace that is written as a lifeline, a kind and a
/// message.
pub fn trace_action_from_text(
    gen_ctx: &GeneralContext,
    lf_name: &String,
    act_kind: TraceActionKind,
    ms_name: &String,
) -> (r: Result<TraceAction, HibouParsingError>)
    ensures
        match r {
            Ok(a) => trace_action_of(gen_ctx@, lf_name@, act_kind, ms_name@) == Ok::<
                TraceAction,
                ParsingErrorView,
            >(a) && a.well_formed(gen_ctx@),
            Err(e) => trace_action_of(gen_ctx@, lf_name@, act_kind, ms_name@) == Err::<
                TraceAction,
                ParsingErrorView,
            >(e@),
        },
{
    let lf_id = match gen_ctx.get_lf_id(lf_name.as_str()) {
        None => {
            return Err(HibouParsingError::MissingLifelineDeclarationError(lf_name.clone()));
        },
        Some(lf_id) => lf_id,
    };
    let ms_id = match gen_ctx.get_ms_id(ms_name.as_str()) {
        None => {
            return Err(HibouParsingError::MissingMessageDeclarationError(ms_name.clone()));
        },
        Some(ms_id) => ms_id,
    };
    Ok(TraceAction::new(lf_id, act_kind, MessageTypeExpression::Singleton(ms_id)))
}

/// An action of a trace, as it is written.
pub struct TraceActionText {
    pub lifeline: String,
    pub act_kind: TraceActionKind,
    pub message: String,
}

/// The action of a trace and the lifelines of its trace after it: the
/// lifeline of the action must not belong to another trace, and it joins
/// the lifelines of the trace, or has to be one of them already.
pub open spec fn component_action_of(
    ctx: ContextView,
    text: TraceActionText,
    unavailable: Set<usize>,
    lifelines: Set<usize>,
    add_lfs: bool,
) -> Result<(TraceAction, Set<usize>), ParsingErrorView> {
    match trace_action_of(ctx, text.lifeline@, text.act_kind, text.message@) {
        Err(e) => Err(e),
        Ok(action) => if unavailable.contains(action.lf_id) {
            Err(ParsingErrorView::NonDisjointTraceComponents)
        } else if add_lfs {
            Ok((action, lifelines.insert(action.lf_id)))
        } else if lifelines.contains(action.lf_id) {
            Ok((action, lifelines))
        } else {
            Err(ParsingErrorView::IllDefinedTraceComponents(action.lf_id))
        },
    }
}

/// An action of a trace, checked against the lifelines of the traces: see
/// `component_action_of`. On a fault the lifelines stay as they are.
pub fn get_trace_action(
    gen_ctx: &GeneralContext,
    text: &TraceActionText,
    unavailable_lifelines: &HashSet<usize>,
    lifelines: &mut HashSet<usize>,
    add_lfs: bool,
) -> (r: Result<TraceAction, HibouParsingError>)
    ensures
        match r {
            Ok(a) => component_action_of(
                gen_ctx@,
                *text,
                unavailable_lifelines@,
                old(lifelines)@,
                add_lfs,
            ) == Ok::<(TraceAction, Set<usize>), ParsingErrorView>((a, final(lifelines)@))
                && a.well_formed(gen_ctx@),
            Err(e) => component_action_of(
                gen_ctx@,
                *text,
                unavailable_lifelines@,
                old(lifelines)@,
                add_lfs,
            ) == Err::<(TraceAction, Set<usize>), ParsingErrorView>(e@) && final(lifelines)@
                == old(lifelines)@,
        },
{
    broadcast use vstd::std_specs::hash::group_hash_axioms;
    match trace_action_from_text(gen_ctx, &text.lifeline, text.act_kind, &text.message) {
        Err(e) => Err(e),
        Ok(action) => {
            if unavailable_lifelines.contains(&action.lf_id) {
                return Err(HibouParsingError::NonDisjointTraceComponents);
            }
            if add_lfs {
                lifelines.insert(action.lf_id);
            } else if !lifelines.contains(&action.lf_id) {
                return Err(HibouParsingError::IllDefinedTraceComponents(action.lf_id));
            }
            Ok(action)
        },
    }
}


/// The actions of a trace and the lifelines of the trace after them, up to
/// the first fault.
#[verifier::opaque]
pub open spec fn component_trace_of(
    ctx: ContextView,
    texts: Seq<TraceActionText>,
    unavailable: Set<usize>,
    lifelines: Set<usize>,
    add_lfs: bool,
) -> (Result<Seq<TraceAction>, ParsingErrorView>, Set<usize>)
    decreases texts.len(),
{
    if texts.len() == 0 {
        (Ok(Seq::empty()), lifelines)
    } else {
        let (front, known) = component_trace_of(
            ctx,
            texts.drop_last(),
            unavailable,
            lifelines,
            add_lfs,
        );
        match front {
            Err(e) => (Err(e), known),
            Ok(actions) => match component_action_of(ctx, texts.last(), unavailable, known, add_lfs) {
                Err(e) => (Err(e), known),
                Ok((action, more)) => (Ok(actions.push(action)), more),
            },
        }
    }
}

proof fn lemma_trace_fault_stays(
    ctx: ContextView,
    texts: Seq<TraceActionText>,
    unavailable: Set<usize>,
    lifelines: Set<usize>,
    add_lfs: bool,
    n: int,
)
    requires
        0 <= n <= texts.len(),
        component_trace_of(ctx, texts.take(n), unavailable, lifelines, add_lfs).0 is Err,
    ensures
        component_trace_of(ctx, texts, unavailable, lifelines, add_lfs) == component_trace_of(
            ctx,
            texts.take(n),
            unavailable,
            lifelines,
            add_lfs,
        ),
    decreases texts.len() - n,
{
    reveal_with_fuel(component_trace_of, 2);
    if n == texts.len() {
        assert(texts.take(n) =~= texts);
    } else {
        assert(texts.take(n + 1).drop_last() =~= texts.take(n));
        lemma_trace_fault_stays(ctx, texts, unavailable, lifelines, add_lfs, n + 1);
    }
}

proof fn lemma_trace_none(ctx: ContextView, unavailable: Set<usize>, lifelines: Set<usize>, add_lfs: bool)
    ensures
        component_trace_of(ctx, Seq::empty(), unavailable, lifelines, add_lfs) == (
            Ok::<Seq<TraceAction>, ParsingErrorView>(Seq::empty()),
            lifelines,
        ),
{
    reveal_with_fuel(component_trace_of, 2);
}

proof fn lemma_trace_one_more(
    ctx: ContextView,
    texts: Seq<TraceActionText>,
    unavailable: Set<usize>,
    lifelines: Set<usize>,
    add_lfs: bool,
    n: int,
    actions: Seq<TraceAction>,
    known: Set<usize>,
)
    requires
        0 <= n < texts.len(),
        component_trace_of(ctx, texts.take(n), unavailable, lifelines, add_lfs) == (
            Ok::<Seq<TraceAction>, ParsingErrorView>(actions),
            known,
        ),
    ensures
        component_trace_of(ctx, texts.take(n + 1), unavailable, lifelines, add_lfs)
            == match component_action_of(ctx, texts[n], unavailable, known, add_lfs) {
            Err(e) => (Err::<Seq<TraceAction>, ParsingErrorView>(e), known),
            Ok((action, more)) => (
                Ok::<Seq<TraceAction>, ParsingErrorView>(actions.push(action)),
                more,
            ),
        },
{
    reveal_with_fuel(component_trace_of, 2);
    assert(texts.take(n + 1).drop_last() =~= texts.take(n));
    assert(texts.take(n + 1).last() == texts[n]);
}

/// The trace that is written as a sequence of actions, checked against the
/// lifelines of the traces: see `component_trace_of`.
pub fn trace_sequence_from_pair(
    gen_ctx: &GeneralContext,
    texts: &Vec<TraceActionText>,
    unavailable_lifelines: &HashSet<usize>,
    lifelines: &mut HashSet<usize>,
    add_lfs: bool,
) -> (r: Result<Vec<TraceAction>, HibouParsingError>)
    ensures
        ({
            let expected = component_trace_of(
                gen_ctx@,
                texts@,
                unavailable_lifelines@,
                old(lifelines)@,
                add_lfs,
            );
            &&& final(lifelines)@ == expected.1
            &&& match r {
                Ok(trace) => expected.0 == Ok::<Seq<TraceAction>, ParsingErrorView>(trace@)
                    && crate::trace::trace_well_formed(trace@, gen_ctx@),
                Err(e) => expected.0 == Err::<Seq<TraceAction>, ParsingErrorView>(e@),
            }
        }),
{
    let ghost start = lifelines@;
    let mut trace: Vec<TraceAction> = Vec::new();
    let mut i: usize = 0;
    proof {
        assert(texts@.take(0) =~= Seq::<TraceActionText>::empty());
        lemma_trace_none(gen_ctx@, unavailable_lifelines@, start, add_lfs);
    }
    while i < texts.len()
        invariant
            i <= texts.len(),
            start == old(lifelines)@,
            crate::trace::trace_well_formed(trace@, gen_ctx@),
            component_trace_of(
                gen_ctx@,
                texts@.take(i as int),
                unavailable_lifelines@,
                start,
                add_lfs,
            ) == (Ok::<Seq<TraceAction>, ParsingErrorView>(trace@), lifelines@),
        decreases texts.len() - i,
    {
        proof {
            lemma_trace_one_more(
                gen_ctx@,
                texts@,
                unavailable_lifelines@,
                start,
                add_lfs,
                i as int,
                trace@,
                lifelines@,
            );
        }
        let ghost before = trace@;
        let ghost known = lifelines@;
        match get_trace_action(gen_ctx, &texts[i], unavailable_lifelines, lifelines, add_lfs) {
            Err(e) => {
                proof {
                    assert(component_action_of(
                        gen_ctx@,
                        texts@[i as int],
                        unavailable_lifelines@,
                        known,
                        add_lfs,
                    ) == Err::<(TraceAction, Set<usize>), ParsingErrorView>(e@));
                    assert(component_trace_of(
                        gen_ctx@,
                        texts@.take(i + 1),
                        unavailable_lifelines@,
                        start,
                        add_lfs,
                    ) == (Err::<Seq<TraceAction>, ParsingErrorView>(e@), known));
                    lemma_trace_fault_stays(
                        gen_ctx@,
                        texts@,
                        unavailable_lifelines@,
                        start,
                        add_lfs,
                        i + 1,
                    );
                }
                return Err(e);
            },
            Ok(action) => {
                trace.push(action);
                proof {
                    assert forall|k: int| 0 <= k < trace@.len() implies (
                    #[trigger] trace@[k]).well_formed(gen_ctx@) by {
                        if k < before.len() {
                            assert(trace@[k] == before[k]);
                        }
                    }
                }
            },
        }
        i += 1;
    }
    proof {
        assert(texts@.take(texts.len() as int) =~= texts@);
    }
    Ok(trace)
}

/// A named type, as it is declared: its name and the names of its
/// messages.
pub struct TypeDeclaration {
    pub name: String,
    pub messages: Vec<String>,
}

/// A section of a signature, as it is declared.
pub enum SignatureSection {
    Messages(Vec<String>),
    Lifelines(Vec<String>),
    Types(Vec<TypeDeclaration>),
}

/// The table of names once each of the new names is interned.
#[verifier::opaque]
pub open spec fn interned(names: Seq<Seq<char>>, new_names: Seq<Seq<char>>) -> Seq<Seq<char>>
    decreases new_names.len(),
{
    if new_names.len() == 0 {
        names
    } else {
        let front = interned(names, new_names.drop_last());
        if position_of(front, new_names.last()) is Some {
            front
        } else {
            front.push(new_names.last())
        }
    }
}

proof fn lemma_interned_one_more(names: Seq<Seq<char>>, new_names: Seq<Seq<char>>, n: int)
    requires
        0 <= n < new_names.len(),
    ensures
        interned(names, Seq::empty()) == names,
        interned(names, new_names.take(n + 1)) == if position_of(
            interned(names, new_names.take(n)),
            new_names[n],
        ) is Some {
            interned(names, new_names.take(n))
        } else {
            interned(names, new_names.take(n)).push(new_names[n])
        },
{
    reveal_with_fuel(interned, 2);
    assert(new_names.take(n + 1).drop_last() =~= new_names.take(n));
    assert(new_names.take(n + 1).last() == new_names[n]);
}

proof fn lemma_interned_none(names: Seq<Seq<char>>)
    ensures
        interned(names, Seq::empty()) == names,
{
    reveal_with_fuel(interned, 2);
}

/// The messages that the names stand for, as a set, or the first name that
/// is no message.
#[verifier::opaque]
pub open spec fn message_set_of(ms_names: Seq<Seq<char>>, names: Seq<Seq<char>>) -> Result<
    Set<usize>,
    Seq<char>,
>
    decreases names.len(),
{
    if names.len() == 0 {
        Ok(Set::empty())
    } else {
        match message_set_of(ms_names, names.drop_last()) {
            Err(name) => Err(name),
            Ok(ids) => match position_of(ms_names, names.last()) {
                None => Err(names.last()),
                Some(id) => Ok(ids.insert(id)),
            },
        }
    }
}

proof fn lemma_message_set_fault_stays(ms_names: Seq<Seq<char>>, names: Seq<Seq<char>>, n: int)
    requires
        0 <= n <= names.len(),
        message_set_of(ms_names, names.take(n)) is Err,
    ensures
        message_set_of(ms_names, names) == message_set_of(ms_names, names.take(n)),
    decreases names.len() - n,
{
    reveal_with_fuel(message_set_of, 2);
    if n == names.len() {
        assert(names.take(n) =~= names);
    } else {
        assert(names.take(n + 1).drop_last() =~= names.take(n));
        lemma_message_set_fault_stays(ms_names, names, n + 1);
    }
}

proof fn lemma_message_set_one_more(
    ms_names: Seq<Seq<char>>,
    names: Seq<Seq<char>>,
    n: int,
    ids: Set<usize>,
)
    requires
        0 <= n < names.len(),
        message_set_of(ms_names, names.take(n)) == Ok::<Set<usize>, Seq<char>>(ids),
    ensures
        message_set_of(ms_names, names.take(n + 1)) == match position_of(ms_names, names[n]) {
            None => Err::<Set<usize>, Seq<char>>(names[n]),
            Some(id) => Ok::<Set<usize>, Seq<char>>(ids.insert(id)),
        },
{
    reveal_with_fuel(message_set_of, 2);
    assert(names.take(n + 1).drop_last() =~= names.take(n));
    assert(names.take(n + 1).last() == names[n]);
}

proof fn lemma_message_set_none(ms_names: Seq<Seq<char>>)
    ensures
        message_set_of(ms_names, Seq::empty()) == Ok::<Set<usize>, Seq<char>>(Set::empty()),
{
    reveal_with_fuel(message_set_of, 2);
}

/// The table once the types are declared in it: the messages of a type
/// must be declared, and a type that is declared already stays as it is.
#[verifier::opaque]
pub open spec fn with_types(ctx: ContextView, decls: Seq<TypeDeclaration>) -> Result<
    ContextView,
    ParsingErrorView,
>
    decreases decls.len(),
{
    if decls.len() == 0 {
        Ok(ctx)
    } else {
        match with_types(ctx, decls.drop_last()) {
            Err(e) => Err(e),
            Ok(c) => match message_set_of(c.ms_names, names_of(decls.last().messages@)) {
                Err(name) => Err(
                    ParsingErrorView::HsfSetupError(
                        SetupFaultView::UnknownMessageInType(name, decls.last().name@),
                    ),
                ),
                Ok(ids) => Ok(
                    if position_of(c.mt_names, decls.last().name@) is Some {
                        c
                    } else {
                        ContextView {
                            mt_names: c.mt_names.push(decls.last().name@),
                            mt_messages: c.mt_messages.push(ids),
                            ..c
                        }
                    },
                ),
            },
        }
    }
}

proof fn lemma_types_fault_stays(ctx: ContextView, decls: Seq<TypeDeclaration>, n: int)
    requires
        0 <= n <= decls.len(),
        with_types(ctx, decls.take(n)) is Err,
    ensures
        with_types(ctx, decls) == with_types(ctx, decls.take(n)),
    decreases decls.len() - n,
{
    reveal_with_fuel(with_types, 2);
    if n == decls.len() {
        assert(decls.take(n) =~= decls);
    } else {
        assert(decls.take(n + 1).drop_last() =~= decls.take(n));
        lemma_types_fault_stays(ctx, decls, n + 1);
    }
}

proof fn lemma_types_one_more(ctx: ContextView, decls: Seq<TypeDeclaration>, n: int, c: ContextView)
    requires
        0 <= n < decls.len(),
        with_types(ctx, decls.take(n)) == Ok::<ContextView, ParsingErrorView>(c),
    ensures
        with_types(ctx, Seq::empty()) == Ok::<ContextView, ParsingErrorView>(ctx),
        with_types(ctx, decls.take(n + 1)) == match message_set_of(
            c.ms_names,
            names_of(decls[n].messages@),
        ) {
            Err(name) => Err::<ContextView, ParsingErrorView>(
                ParsingErrorView::HsfSetupError(
                    SetupFaultView::UnknownMessageInType(name, decls[n].name@),
                ),
            ),
            Ok(ids) => Ok::<ContextView, ParsingErrorView>(
                if position_of(c.mt_names, decls[n].name@) is Some {
                    c
                } else {
                    ContextView {
                        mt_names: c.mt_names.push(decls[n].name@),
                        mt_messages: c.mt_messages.push(ids),
                        ..c
                    }
                },
            ),
        },
{
    reveal_with_fuel(with_types, 2);
    assert(decls.take(n + 1).drop_last() =~= decls.take(n));
    assert(decls.take(n + 1).last() == decls[n]);
}

proof fn lemma_types_none(ctx: ContextView)
    ensures
        with_types(ctx, Seq::empty()) == Ok::<ContextView, ParsingErrorView>(ctx),
{
    reveal_with_fuel(with_types, 2);
}

/// How far a signature is read: the table so far, and which sections were
/// seen.
pub struct Setup {
    pub ctx: ContextView,
    pub got_messages: bool,
    pub got_lifelines: bool,
    pub got_types: bool,
}

/// The state after one more section: each kind of section comes once, and
/// the types come after the messages.
pub open spec fn with_section(state: Setup, section: SignatureSection) -> Result<
    Setup,
    ParsingErrorView,
> {
    match section {
        SignatureSection::Messages(names) => if state.got_messages {
            Err(ParsingErrorView::HsfSetupError(SetupFaultView::SeveralMessageSections))
        } else {
            Ok(
                Setup {
                    ctx: ContextView {
                        ms_names: interned(state.ctx.ms_names, names_of(names@)),
                        ..state.ctx
                    },
                    got_messages: true,
                    ..state
                },
            )
        },
        SignatureSection::Lifelines(names) => if state.got_lifelines {
            Err(ParsingErrorView::HsfSetupError(SetupFaultView::SeveralLifelineSections))
        } else {
            Ok(
                Setup {
                    ctx: ContextView {
                        lf_names: interned(state.ctx.lf_names, names_of(names@)),
                        ..state.ctx
                    },
                    got_lifelines: true,
                    ..state
                },
            )
        },
        SignatureSection::Types(decls) => if !state.got_messages {
            Err(ParsingErrorView::HsfSetupError(SetupFaultView::TypesBeforeMessages))
        } else if state.got_types {
            Err(ParsingErrorView::HsfSetupError(SetupFaultView::SeveralTypeSections))
        } else {
            match with_types(state.ctx, decls@) {
                Err(e) => Err(e),
                Ok(ctx) => Ok(Setup { ctx, got_types: true, ..state }),
            }
        },
    }
}

/// The state after the sections, from the empty table.
#[verifier::opaque]
pub open spec fn with_sections(sections: Seq<SignatureSection>) -> Result<Setup, ParsingErrorView>
    decreases sections.len(),
{
    if sections.len() == 0 {
        Ok(
            Setup {
                ctx: ContextView {
                    lf_names: Seq::empty(),
                    ms_names: Seq::empty(),
                    mt_names: Seq::empty(),
                    mt_messages: Seq::empty(),
                },
                got_messages: false,
                got_lifelines: false,
                got_types: false,
            },
        )
    } else {
        match with_sections(sections.drop_last()) {
            Err(e) => Err(e),
            Ok(state) => with_section(state, sections.last()),
        }
    }
}

proof fn lemma_sections_fault_stays(sections: Seq<SignatureSection>, n: int)
    requires
        0 <= n <= sections.len(),
        with_sections(sections.take(n)) is Err,
    ensures
        with_sections(sections) == with_sections(sections.take(n)),
    decreases sections.len() - n,
{
    reveal_with_fuel(with_sections, 2);
    if n == sections.len() {
        assert(sections.take(n) =~= sections);
    } else {
        assert(sections.take(n + 1).drop_last() =~= sections.take(n));
        lemma_sections_fault_stays(sections, n + 1);
    }
}

proof fn lemma_sections_one_more(sections: Seq<SignatureSection>, n: int, state: Setup)
    requires
        0 <= n < sections.len(),
        with_sections(sections.take(n)) == Ok::<Setup, ParsingErrorView>(state),
    ensures
        with_sections(sections.take(n + 1)) == with_section(state, sections[n]),
{
    reveal_with_fuel(with_sections, 2);
    assert(sections.take(n + 1).drop_last() =~= sections.take(n));
    assert(sections.take(n + 1).last() == sections[n]);
}

proof fn lemma_sections_none()
    ensures
        with_sections(Seq::empty()) == Ok::<Setup, ParsingErrorView>(
            (Setup {
                ctx: ContextView {
                    lf_names: Seq::empty(),
                    ms_names: Seq::empty(),
                    mt_names: Seq::empty(),
                    mt_messages: Seq::empty(),
                },
                got_messages: false,
                got_lifelines: false,
                got_types: false,
            }),
        ),
{
    reveal_with_fuel(with_sections, 2);
}

fn parse_message_decl(names: &Vec<String>, gen_ctx: &mut GeneralContext)
    ensures
        final(gen_ctx)@ == (ContextView {
            ms_names: interned(old(gen_ctx)@.ms_names, names_of(names@)),
            ..old(gen_ctx)@
        }),
{
    let ghost texts = names_of(names@);
    let mut i: usize = 0;
    proof {
        assert(texts.take(0) =~= Seq::<Seq<char>>::empty());
        lemma_interned_none(old(gen_ctx)@.ms_names);
    }
    while i < names.len()
        invariant
            i <= names.len(),
            texts == names_of(names@),
            gen_ctx@ == (ContextView {
                ms_names: interned(old(gen_ctx)@.ms_names, texts.take(i as int)),
                ..old(gen_ctx)@
            }),
        decreases names.len() - i,
    {
        proof {
            lemma_interned_one_more(old(gen_ctx)@.ms_names, texts, i as int);
            assert(texts[i as int] == names@[i as int]@);
        }
        gen_ctx.add_msg(names[i].clone());
        i += 1;
    }
    proof {
        assert(texts.take(names.len() as int) =~= texts);
    }
}

fn parse_lifeline_decl(names: &Vec<String>, gen_ctx: &mut GeneralContext)
    ensures
        final(gen_ctx)@ == (ContextView {
            lf_names: interned(old(gen_ctx)@.lf_names, names_of(names@)),
            ..old(gen_ctx)@
        }),
{
    let ghost texts = names_of(names@);
    let mut i: usize = 0;
    proof {
        assert(texts.take(0) =~= Seq::<Seq<char>>::empty());
        lemma_interned_none(old(gen_ctx)@.lf_names);
    }
    while i < names.len()
        invariant
            i <= names.len(),
            texts == names_of(names@),
            gen_ctx@ == (ContextView {
                lf_names: interned(old(gen_ctx)@.lf_names, texts.take(i as int)),
                ..old(gen_ctx)@
            }),
        decreases names.len() - i,
    {
        proof {
            lemma_interned_one_more(old(gen_ctx)@.lf_names, texts, i as int);
            assert(texts[i as int] == names@[i as int]@);
        }
        gen_ctx.add_lf(names[i].clone());
        i += 1;
    }
    proof {
        assert(texts.take(names.len() as int) =~= texts);
    }
}

fn resolve_message_set(gen_ctx: &GeneralContext, names: &Vec<String>) -> (r: Result<
    HashSet<usize>,
    String,
>)
    ensures
        match r {
            Ok(ids) => message_set_of(gen_ctx@.ms_names, names_of(names@)) == Ok::<
                Set<usize>,
                Seq<char>,
            >(ids@),
            Err(name) => message_set_of(gen_ctx@.ms_names, names_of(names@)) == Err::<
                Set<usize>,
                Seq<char>,
            >(name@),
        },
{
    broadcast use vstd::std_specs::hash::group_hash_axioms;
    let ghost texts = names_of(names@);
    let mut msgs: HashSet<usize> = HashSet::new();
    let mut j: usize = 0;
    proof {
        assert(texts.take(0) =~= Seq::<Seq<char>>::empty());
        lemma_message_set_none(gen_ctx@.ms_names);
    }
    while j < names.len()
        invariant
            j <= names.len(),
            texts == names_of(names@),
            message_set_of(gen_ctx@.ms_names, texts.take(j as int)) == Ok::<Set<usize>, Seq<char>>(
                msgs@,
            ),
        decreases names.len() - j,
    {
        proof {
            lemma_message_set_one_more(gen_ctx@.ms_names, texts, j as int, msgs@);
            assert(texts[j as int] == names@[j as int]@);
        }
        match gen_ctx.get_ms_id(names[j].as_str()) {
            None => {
                proof {
                    lemma_message_set_fault_stays(gen_ctx@.ms_names, texts, j + 1);
                }
                return Err(names[j].clone());
            },
            Some(ms_id) => {
                msgs.insert(ms_id);
            },
        }
        j += 1;
    }
    proof {
        assert(texts.take(names.len() as int) =~= texts);
    }
    Ok(msgs)
}

fn parse_type_decl(decls: &Vec<TypeDeclaration>, gen_ctx: &mut GeneralContext) -> (r: Result<
    (),
    HibouParsingError,
>)
    ensures
        match r {
            Ok(_) => with_types(old(gen_ctx)@, decls@) == Ok::<ContextView, ParsingErrorView>(
                final(gen_ctx)@,
            ),
            Err(e) => with_types(old(gen_ctx)@, decls@) == Err::<ContextView, ParsingErrorView>(e@),
        },
{
    let mut i: usize = 0;
    proof {
        assert(decls@.take(0) =~= Seq::<TypeDeclaration>::empty());
        lemma_types_none(old(gen_ctx)@);
    }
    while i < decls.len()
        invariant
            i <= decls.len(),
            with_types(old(gen_ctx)@, decls@.take(i as int)) == Ok::<
                ContextView,
                ParsingErrorView,
            >(gen_ctx@),
        decreases decls.len() - i,
    {
        proof {
            lemma_types_one_more(old(gen_ctx)@, decls@, i as int, gen_ctx@);
        }
        let decl = &decls[i];
        match resolve_message_set(gen_ctx, &decl.messages) {
            Err(ms_name) => {
                proof {
                    lemma_types_fault_stays(old(gen_ctx)@, decls@, i + 1);
                }
                return Err(
                    HibouParsingError::HsfSetupError(
                        SetupFault::UnknownMessageInType(ms_name, decl.name.clone()),
                    ),
                );
            },
            Ok(msgs) => {
                gen_ctx.add_mt(decl.name.clone(), msgs);
            },
        }
        i += 1;
    }
    proof {
        assert(decls@.take(decls.len() as int) =~= decls@);
    }
    Ok(())
}

/// The symbol table that the sections of a signature declare: see
/// `with_sections`.
pub fn parse_signature(sections: &Vec<SignatureSection>) -> (r: Result<
    GeneralContext,
    HibouParsingError,
>)
    ensures
        match r {
            Ok(ctx) => with_sections(sections@) matches Ok(state) && state.ctx == ctx@,
            Err(e) => with_sections(sections@) matches Err(fault) && fault == e@,
        },
{
    let mut got_section_messages = false;
    let mut got_section_lifelines = false;
    let mut got_section_types = false;
    let mut gen_ctx = GeneralContext::new();
    let mut i: usize = 0;
    proof {
        assert(sections@.take(0) =~= Seq::<SignatureSection>::empty());
        lemma_sections_none();
        assert(gen_ctx@.lf_names =~= Seq::<Seq<char>>::empty());
        assert(gen_ctx@.ms_names =~= Seq::<Seq<char>>::empty());
        assert(gen_ctx@.mt_names =~= Seq::<Seq<char>>::empty());
        assert(gen_ctx@.mt_messages =~= Seq::<Set<usize>>::empty());
    }
    while i < sections.len()
        invariant
            i <= sections.len(),
            with_sections(sections@.take(i as int)) == Ok::<Setup, ParsingErrorView>(
                (Setup {
                    ctx: gen_ctx@,
                    got_messages: got_section_messages,
                    got_lifelines: got_section_lifelines,
                    got_types: got_section_types,
                }),
            ),
        decreases sections.len() - i,
    {
        proof {
            lemma_sections_one_more(
                sections@,
                i as int,
                Setup {
                    ctx: gen_ctx@,
                    got_messages: got_section_messages,
                    got_lifelines: got_section_lifelines,
                    got_types: got_section_types,
                },
            );
        }
        match &sections[i] {
            SignatureSection::Messages(names) => {
                if got_section_messages {
                    proof {
                        lemma_sections_fault_stays(sections@, i + 1);
                    }
                    return Err(HibouParsingError::HsfSetupError(SetupFault::SeveralMessageSections));
                }
                got_section_messages = true;
                parse_message_decl(names, &mut gen_ctx);
            },
            SignatureSection::Lifelines(names) => {
                if got_section_lifelines {
                    proof {
                        lemma_sections_fault_stays(sections@, i + 1);
                    }
                    return Err(
                        HibouParsingError::HsfSetupError(SetupFault::SeveralLifelineSections),
                    );
                }
                got_section_lifelines = true;
                parse_lifeline_decl(names, &mut gen_ctx);
            },
            SignatureSection::Types(decls) => {
                if !got_section_messages {
                    proof {
                        lemma_sections_fault_stays(sections@, i + 1);
                    }
                    return Err(HibouParsingError::HsfSetupError(SetupFault::TypesBeforeMessages));
                }
                if got_section_types {
                    proof {
                        lemma_sections_fault_stays(sections@, i + 1);
                    }
                    return Err(HibouParsingError::HsfSetupError(SetupFault::SeveralTypeSections));
                }
                got_section_types = true;
                match parse_type_decl(decls, &mut gen_ctx) {
                    Ok(_) => {},
                    Err(e) => {
                        proof {
                            lemma_sections_fault_stays(sections@, i + 1);
                        }
                        return Err(e);
                    },
                }
            },
        }
        i += 1;
    }
    proof {
        assert(sections@.take(sections.len() as int) =~= sections@);
    }
    Ok(gen_ctx)
}

} // verus!
