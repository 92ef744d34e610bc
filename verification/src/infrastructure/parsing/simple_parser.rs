//! Parser for the simple line-oriented Event Model format.
//!
//! A model starts with `Title: <name>`, followed by swimlanes
//! (`Swimlane: <name>`, then one `- <Kind>: <Name>` line per entity, ended
//! by an empty line or any other line) and connectors (`From -> To`).
//! Entity names must be unique, and connectors may only name entities that
//! were declared before them.
//!
//! `spec_parse` states the result for every input; `EventModelParser::parse`
//! returns exactly that.

use super::simple_lexer::{
    after_line, column_of, lemma_token_end, line_of, line_text, skip_blanks, token_at, word_end, KindModel, Lexer, Token,
    TokenKind,
};
use crate::infrastructure::text::{append_str, decimal, push_decimal, str_equal};
use crate::infrastructure::types::{is_identifier, Identifier, NonEmptyString};
use vstd::prelude::*;

verus! {

/// Parsed event model structure.
#[derive(Debug)]
pub struct ParsedEventModel {
    /// The title line's text.
    pub title: NonEmptyString,
    /// The swimlanes, in order.
    pub swimlanes: Vec<ParsedSwimlane>,
    /// The connectors, in order.
    pub connectors: Vec<ParsedConnector>,
}

/// Parsed swimlane structure.
#[derive(Debug)]
pub struct ParsedSwimlane {
    /// The swimlane's name.
    pub name: NonEmptyString,
    /// Its entities, in order.
    pub entities: Vec<ParsedEntity>,
}

/// Parsed entity types.
#[derive(Debug, Clone)]
pub enum ParsedEntity {
    /// A command.
    Command(NonEmptyString),
    /// An event.
    Event(NonEmptyString),
    /// A projection.
    Projection(NonEmptyString),
    /// A policy.
    Policy(NonEmptyString),
    /// An external system.
    ExternalSystem(NonEmptyString),
    /// An aggregate.
    Aggregate(NonEmptyString),
}

/// Parsed connector between entities.
#[derive(Debug)]
pub struct ParsedConnector {
    /// The source entity's name.
    pub from: Identifier,
    /// The target entity's name.
    pub to: Identifier,
}

/// Parser errors.
#[derive(Debug, PartialEq)]
pub enum ParseError {
    /// The model does not start with `Title:`.
    MissingTitle,
    /// A token other than the expected one.
    UnexpectedToken {
        /// What was expected.
        expected: String,
        /// What was found.
        found: String,
        /// Line of the offending token (0 when not known).
        line: usize,
        /// Column of the offending token (0 when not known).
        column: usize,
    },
    /// An entity name was declared twice.
    DuplicateEntity(String),
    /// A connector names an entity that was not declared.
    UnknownEntity(String),
    /// A name is empty or not a valid identifier.
    InvalidIdentifier(String),
}

/// The kind of a parsed entity.
pub enum EntityKindModel {
    Command,
    Event,
    Projection,
    Policy,
    ExternalSystem,
    Aggregate,
}

/// A parsed swimlane: its name and its (kind, name) entities.
pub struct SwimlaneModel {
    pub name: Seq<char>,
    pub entities: Seq<(EntityKindModel, Seq<char>)>,
}

/// A parsed model: title, swimlanes, and (from, to) connectors.
pub struct ModelSpec {
    pub title: Seq<char>,
    pub swimlanes: Seq<SwimlaneModel>,
    pub connectors: Seq<(Seq<char>, Seq<char>)>,
}

/// A parse error.
pub enum ErrorModel {
    MissingTitle,
    UnexpectedToken { expected: Seq<char>, found: Seq<char>, line: int, column: int },
    DuplicateEntity(Seq<char>),
    UnknownEntity(Seq<char>),
    InvalidIdentifier(Seq<char>),
}

/// What the parser has gathered after the title.
pub struct StateModel {
    pub swimlanes: Seq<SwimlaneModel>,
    pub connectors: Seq<(Seq<char>, Seq<char>)>,
    /// Every entity name declared so far, in order.
    pub names: Seq<Seq<char>>,
}

impl View for ParsedEntity {
    type V = (EntityKindModel, Seq<char>);

    open spec fn view(&self) -> (EntityKindModel, Seq<char>) {
        match self {
            ParsedEntity::Command(n) => (EntityKindModel::Command, n@),
            ParsedEntity::Event(n) => (EntityKindModel::Event, n@),
            ParsedEntity::Projection(n) => (EntityKindModel::Projection, n@),
            ParsedEntity::Policy(n) => (EntityKindModel::Policy, n@),
            ParsedEntity::ExternalSystem(n) => (EntityKindModel::ExternalSystem, n@),
            ParsedEntity::Aggregate(n) => (EntityKindModel::Aggregate, n@),
        }
    }
}

impl View for ParsedSwimlane {
    type V = SwimlaneModel;

    open spec fn view(&self) -> SwimlaneModel {
        SwimlaneModel { name: self.name@, entities: self.entities@.map_values(|e: ParsedEntity| e@) }
    }
}

impl View for ParsedConnector {
    type V = (Seq<char>, Seq<char>);

    open spec fn view(&self) -> (Seq<char>, Seq<char>) {
        (self.from@, self.to@)
    }
}

impl View for ParsedEventModel {
    type V = ModelSpec;

    open spec fn view(&self) -> ModelSpec {
        ModelSpec {
            title: self.title@,
            swimlanes: self.swimlanes@.map_values(|s: ParsedSwimlane| s@),
            connectors: self.connectors@.map_values(|c: ParsedConnector| c@),
        }
    }
}

impl View for ParseError {
    type V = ErrorModel;

    open spec fn view(&self) -> ErrorModel {
        match self {
            ParseError::MissingTitle => ErrorModel::MissingTitle,
            ParseError::UnexpectedToken { expected, found, line, column } => ErrorModel::UnexpectedToken {
                expected: expected@,
                found: found@,
                line: *line as int,
                column: *column as int,
            },
            ParseError::DuplicateEntity(s) => ErrorModel::DuplicateEntity(s@),
            ParseError::UnknownEntity(s) => ErrorModel::UnknownEntity(s@),
            ParseError::InvalidIdentifier(s) => ErrorModel::InvalidIdentifier(s@),
        }
    }
}

impl ParsedEntity {
    /// The entity's name.
    pub fn name(&self) -> (r: &str)
        ensures
            r@ == self@.1,
    {
        match self {
            ParsedEntity::Command(name)
            | ParsedEntity::Event(name)
            | ParsedEntity::Projection(name)
            | ParsedEntity::Policy(name)
            | ParsedEntity::ExternalSystem(name)
            | ParsedEntity::Aggregate(name) => name.as_str(),
        }
    }
}

/// How a token is shown in error messages: its variant name, with the word
/// of a `Text` token in quotes and the width of an `Indent`.
pub open spec fn describe(k: KindModel) -> Seq<char> {
    match k {
        KindModel::Title => "Title"@,
        KindModel::Swimlane => "Swimlane"@,
        KindModel::Command => "Command"@,
        KindModel::Event => "Event"@,
        KindModel::Projection => "Projection"@,
        KindModel::Policy => "Policy"@,
        KindModel::ExternalSystem => "ExternalSystem"@,
        KindModel::Aggregate => "Aggregate"@,
        KindModel::Colon => "Colon"@,
        KindModel::Dash => "Dash"@,
        KindModel::Arrow => "Arrow"@,
        KindModel::Newline => "Newline"@,
        KindModel::Text(w) => "Text(\""@ + w + "\")"@,
        KindModel::Indent(n) => "Indent("@ + decimal(n) + ")"@,
    }
}

/// The error for a token of kind `k` at `pos` where `expected` was wanted.
pub open spec fn unexpected(input: Seq<char>, expected: Seq<char>, k: KindModel, pos: int) -> ErrorModel {
    ErrorModel::UnexpectedToken {
        expected,
        found: describe(k),
        line: line_of(input, pos),
        column: column_of(input, pos),
    }
}

/// The error for an input that ends where `expected` was wanted, at the
/// given line and column.
pub open spec fn ended(expected: Seq<char>, line: int, column: int) -> ErrorModel {
    ErrorModel::UnexpectedToken { expected, found: "end of input"@, line, column }
}

/// Parses the title section: `Title`, `:`, and the rest of that line.
/// Gives the title and the position after its line.
pub open spec fn spec_parse_title(input: Seq<char>) -> Result<(Seq<char>, int), ErrorModel> {
    match token_at(input, 0) {
        None => Err(ErrorModel::MissingTitle),
        Some((k, e)) => if !(k is Title) {
            Err(ErrorModel::MissingTitle)
        } else {
            match token_at(input, e) {
                None => Err(ended(":"@, line_of(input, 0), column_of(input, 0))),
                Some((k2, e2)) => if !(k2 is Colon) {
                    Err(unexpected(input, ":"@, k2, e))
                } else {
                    let text = line_text(input, e2);
                    if text.len() == 0 {
                        Err(ErrorModel::InvalidIdentifier("Empty title"@))
                    } else {
                        Ok((text, after_line(input, e2)))
                    }
                }
            }
        }
    }
}

/// The entity kind a token names, if it names one.
pub open spec fn entity_kind(k: KindModel) -> Option<EntityKindModel> {
    match k {
        KindModel::Command => Some(EntityKindModel::Command),
        KindModel::Event => Some(EntityKindModel::Event),
        KindModel::Projection => Some(EntityKindModel::Projection),
        KindModel::Policy => Some(EntityKindModel::Policy),
        KindModel::ExternalSystem => Some(EntityKindModel::ExternalSystem),
        KindModel::Aggregate => Some(EntityKindModel::Aggregate),
        _ => None,
    }
}

/// Parses one entity after its dash: kind, `:`, and the rest of the line as
/// its name, which must not have been declared before. Gives the entity,
/// the position after its line, and the names with this one added.
pub open spec fn spec_parse_entity(input: Seq<char>, pos: int, names: Seq<Seq<char>>) -> Result<
    ((EntityKindModel, Seq<char>), int, Seq<Seq<char>>),
    ErrorModel,
> {
    match token_at(input, pos) {
        None => Err(ended("entity type"@, 0, 0)),
        Some((tk, e1)) => match token_at(input, e1) {
            None => Err(ended(":"@, line_of(input, pos), column_of(input, pos))),
            Some((ck, e2)) => if !(ck is Colon) {
                Err(unexpected(input, ":"@, ck, e1))
            } else {
                let name = line_text(input, e2);
                if name.len() == 0 {
                    Err(ErrorModel::InvalidIdentifier("Empty entity name"@))
                } else if names.contains(name) {
                    Err(ErrorModel::DuplicateEntity(name))
                } else {
                    match entity_kind(tk) {
                        None => Err(unexpected(input, "entity type"@, tk, pos)),
                        Some(kind) => Ok(((kind, name), after_line(input, e2), names.push(name))),
                    }
                }
            }
        },
    }
}

/// An entity is of the kind its keyword names: when the word that opens the
/// entity (after any blanks) is `Command`, `Event`, `Projection`, `Policy`
/// or `Aggregate`, the parsed entity has that kind; and its name is the
/// text of the rest of the line after the `:`.
pub proof fn lemma_entity_of_its_keyword(input: Seq<char>, pos: int, names: Seq<Seq<char>>)
    requires
        spec_parse_entity(input, pos, names) is Ok,
    ensures
        ({
            let p = skip_blanks(input, pos);
            let w = input.subrange(p, word_end(input, p));
            let kind = spec_parse_entity(input, pos, names)->Ok_0.0.0;
            &&& w == seq!['C', 'o', 'm', 'm', 'a', 'n', 'd'] ==> kind == EntityKindModel::Command
            &&& w == seq!['E', 'v', 'e', 'n', 't'] ==> kind == EntityKindModel::Event
            &&& w == seq!['P', 'r', 'o', 'j', 'e', 'c', 't', 'i', 'o', 'n'] ==> kind == EntityKindModel::Projection
            &&& w == seq!['P', 'o', 'l', 'i', 'c', 'y'] ==> kind == EntityKindModel::Policy
            &&& w == seq!['A', 'g', 'g', 'r', 'e', 'g', 'a', 't', 'e'] ==> kind == EntityKindModel::Aggregate
        }),
        ({
            let (tk, e1) = token_at(input, pos)->0;
            let (ck, e2) = token_at(input, e1)->0;
            spec_parse_entity(input, pos, names)->Ok_0.0.1 == line_text(input, e2)
        }),
{
    reveal_strlit("Title");
    reveal_strlit("Swimlane");
    reveal_strlit("Command");
    reveal_strlit("Event");
    reveal_strlit("Projection");
    reveal_strlit("Policy");
    reveal_strlit("Aggregate");
    reveal_strlit("External");
    let p = skip_blanks(input, pos);
    let w = input.subrange(p, word_end(input, p));
    assert(seq!['C', 'o', 'm', 'm', 'a', 'n', 'd'] =~= "Command"@);
    assert(seq!['E', 'v', 'e', 'n', 't'] =~= "Event"@);
    assert(seq!['P', 'r', 'o', 'j', 'e', 'c', 't', 'i', 'o', 'n'] =~= "Projection"@);
    assert(seq!['P', 'o', 'l', 'i', 'c', 'y'] =~= "Policy"@);
    assert(seq!['A', 'g', 'g', 'r', 'e', 'g', 'a', 't', 'e'] =~= "Aggregate"@);
    let (tk, e1) = token_at(input, pos)->0;
}

/// Parses the entities of a swimlane from `pos`: each starts with a dash;
/// any other token (which is consumed) or the end of the input ends the
/// list.
pub open spec fn spec_parse_entities(
    input: Seq<char>,
    pos: int,
    names: Seq<Seq<char>>,
    acc: Seq<(EntityKindModel, Seq<char>)>,
) -> Result<(Seq<(EntityKindModel, Seq<char>)>, int, Seq<Seq<char>>), ErrorModel>
    decreases input.len() - pos,
{
    if pos < 0 || pos > input.len() {
        Err(ErrorModel::MissingTitle)
    } else {
        match token_at(input, pos) {
            None => Ok((acc, pos, names)),
            Some((k, e)) => if k is Dash {
                match spec_parse_entity(input, e, names) {
                    Err(err) => Err(err),
                    Ok((ent, p, names2)) => {
                        proof {
                            lemma_token_end(input, pos);
                            lemma_entity_progress(input, e, names);
                        }
                        spec_parse_entities(input, p, names2, acc.push(ent))
                    },
                }
            } else {
                Ok((acc, e, names))
            },
        }
    }
}

/// Parses a swimlane after its keyword: `:`, the rest of the line as its
/// name, then its entities.
pub open spec fn spec_parse_swimlane(input: Seq<char>, pos: int, names: Seq<Seq<char>>) -> Result<
    (SwimlaneModel, int, Seq<Seq<char>>),
    ErrorModel,
> {
    match token_at(input, pos) {
        None => Err(ended(":"@, 0, 0)),
        Some((k, e)) => if !(k is Colon) {
            Err(unexpected(input, ":"@, k, pos))
        } else {
            let name = line_text(input, e);
            if name.len() == 0 {
                Err(ErrorModel::InvalidIdentifier("Empty swimlane name"@))
            } else {
                match spec_parse_entities(input, after_line(input, e), names, Seq::empty()) {
                    Err(err) => Err(err),
                    Ok((ents, p, names2)) => Ok((SwimlaneModel { name, entities: ents }, p, names2)),
                }
            }
        },
    }
}

/// Parses a connector's target after the arrow; both ends must name
/// declared entities and be identifiers.
pub open spec fn spec_parse_connector(input: Seq<char>, pos: int, from: Seq<char>, names: Seq<Seq<char>>) -> Result<
    ((Seq<char>, Seq<char>), int),
    ErrorModel,
> {
    match token_at(input, pos) {
        None => Err(ended("connector target"@, 0, 0)),
        Some((k, e)) => match k {
            KindModel::Text(to) => if !names.contains(from) {
                Err(ErrorModel::UnknownEntity(from))
            } else if !names.contains(to) {
                Err(ErrorModel::UnknownEntity(to))
            } else if !is_identifier(from) {
                Err(ErrorModel::InvalidIdentifier(from))
            } else if !is_identifier(to) {
                Err(ErrorModel::InvalidIdentifier(to))
            } else {
                Ok(((from, to), e))
            },
            _ => Err(unexpected(input, "connector target"@, k, pos)),
        },
    }
}

/// The first token from `pos` that is not a line break: its kind, start
/// and end.
pub open spec fn next_significant(input: Seq<char>, pos: int) -> Option<(KindModel, int, int)>
    decreases input.len() - pos,
{
    if pos < 0 || pos > input.len() {
        None
    } else {
        match token_at(input, pos) {
            None => None,
            Some((k, e)) => if k is Newline {
                proof {
                    lemma_token_end(input, pos);
                }
                next_significant(input, e)
            } else {
                Some((k, pos, e))
            },
        }
    }
}

/// Parses swimlanes and connectors from `pos` to the end of the input.
pub open spec fn spec_parse_body(input: Seq<char>, pos: int, st: StateModel) -> Result<StateModel, ErrorModel>
    decreases input.len() - pos,
{
    if pos < 0 || pos > input.len() {
        Err(ErrorModel::MissingTitle)
    } else {
        match next_significant(input, pos) {
            None => Ok(st),
            Some((k, s, e)) => {
                proof {
                    lemma_next_significant(input, pos);
                    lemma_token_end(input, s);
                }
                match k {
                    KindModel::Swimlane => match spec_parse_swimlane(input, e, st.names) {
                        Err(err) => Err(err),
                        Ok((lane, p, names2)) => {
                            proof {
                                lemma_swimlane_progress(input, e, st.names);
                            }
                            spec_parse_body(
                                input,
                                p,
                                StateModel { swimlanes: st.swimlanes.push(lane), connectors: st.connectors, names: names2 },
                            )
                        },
                    },
                    KindModel::Text(from) => match token_at(input, e) {
                        None => spec_parse_body(input, e, st),
                        Some((k2, e2)) => if k2 is Arrow {
                            proof {
                                lemma_token_end(input, e);
                            }
                            match spec_parse_connector(input, e2, from, st.names) {
                                Err(err) => Err(err),
                                Ok((c, p)) => {
                                    proof {
                                        lemma_token_end(input, e2);
                                    }
                                    spec_parse_body(
                                        input,
                                        p,
                                        StateModel { swimlanes: st.swimlanes, connectors: st.connectors.push(c), names: st.names },
                                    )
                                },
                            }
                        } else {
                            Err(unexpected(input, "-> or newline"@, k2, e))
                        },
                    },
                    _ => Err(unexpected(input, "Swimlane or connector"@, k, s)),
                }
            },
        }
    }
}

/// The result of parsing `input`: the title, then the body.
pub open spec fn spec_parse(input: Seq<char>) -> Result<ModelSpec, ErrorModel> {
    match spec_parse_title(input) {
        Err(err) => Err(err),
        Ok((title, p)) => match spec_parse_body(
            input,
            p,
            StateModel { swimlanes: Seq::empty(), connectors: Seq::empty(), names: Seq::empty() },
        ) {
            Err(err) => Err(err),
            Ok(st) => Ok(ModelSpec { title, swimlanes: st.swimlanes, connectors: st.connectors }),
        },
    }
}

/// The position after a line lies between `pos` and the end of the input.
pub proof fn lemma_after_line(input: Seq<char>, pos: int)
    requires
        0 <= pos <= input.len(),
    ensures
        pos <= after_line(input, pos) <= input.len(),
{
    super::simple_lexer::lemma_line_end_bounds(input, pos);
}

/// A parsed entity ends at or after where it started, within the input.
pub proof fn lemma_entity_progress(input: Seq<char>, pos: int, names: Seq<Seq<char>>)
    requires
        0 <= pos <= input.len(),
    ensures
        spec_parse_entity(input, pos, names) matches Ok((ent, p, n2)) ==> pos <= p <= input.len(),
{
    lemma_token_end(input, pos);
    if let Some((tk, e1)) = token_at(input, pos) {
        lemma_token_end(input, e1);
        if let Some((ck, e2)) = token_at(input, e1) {
            lemma_after_line(input, e2);
        }
    }
}

/// A parsed entity list ends at or after where it started, within the input.
pub proof fn lemma_entities_progress(
    input: Seq<char>,
    pos: int,
    names: Seq<Seq<char>>,
    acc: Seq<(EntityKindModel, Seq<char>)>,
)
    requires
        0 <= pos <= input.len(),
    ensures
        spec_parse_entities(input, pos, names, acc) matches Ok((ents, p, n2)) ==> pos <= p <= input.len(),
    decreases input.len() - pos,
{
    lemma_token_end(input, pos);
    if let Some((k, e)) = token_at(input, pos) {
        if k is Dash {
            lemma_entity_progress(input, e, names);
            if let Ok((ent, p, names2)) = spec_parse_entity(input, e, names) {
                lemma_entities_progress(input, p, names2, acc.push(ent));
            }
        }
    }
}

/// A parsed swimlane ends at or after where it started, within the input.
pub proof fn lemma_swimlane_progress(input: Seq<char>, pos: int, names: Seq<Seq<char>>)
    requires
        0 <= pos <= input.len(),
    ensures
        spec_parse_swimlane(input, pos, names) matches Ok((lane, p, n2)) ==> pos < p <= input.len()
            || (pos <= p <= input.len() && token_at(input, pos) is Some),
{
    lemma_token_end(input, pos);
    if let Some((k, e)) = token_at(input, pos) {
        lemma_after_line(input, e);
        lemma_entities_progress(input, after_line(input, e), names, Seq::empty());
    }
}

/// The first significant token from `pos` starts at or after `pos`, and is
/// the token that `token_at` gives there.
pub proof fn lemma_next_significant(input: Seq<char>, pos: int)
    requires
        0 <= pos <= input.len(),
    ensures
        next_significant(input, pos) matches Some((k, s, e)) ==> pos <= s < input.len()
            && token_at(input, s) == Some((k, e)) && !(k is Newline),
    decreases input.len() - pos,
{
    lemma_token_end(input, pos);
    if let Some((k, e)) = token_at(input, pos) {
        if k is Newline {
            lemma_next_significant(input, e);
        }
    }
}


/// The names of a list of entities, in order.
pub open spec fn entity_names_of(ents: Seq<(EntityKindModel, Seq<char>)>) -> Seq<Seq<char>> {
    ents.map_values(|e: (EntityKindModel, Seq<char>)| e.1)
}

/// All entities of the swimlanes, swimlane by swimlane, each in order.
pub open spec fn all_entities(lanes: Seq<SwimlaneModel>) -> Seq<(EntityKindModel, Seq<char>)>
    decreases lanes.len(),
{
    if lanes.len() == 0 {
        Seq::empty()
    } else {
        all_entities(lanes.drop_last()) + lanes.last().entities
    }
}

/// The names of all entities of the swimlanes, swimlane by swimlane.
pub open spec fn model_entity_names(lanes: Seq<SwimlaneModel>) -> Seq<Seq<char>> {
    entity_names_of(all_entities(lanes))
}

/// Every connector joins two of `names`.
pub open spec fn connectors_within(cs: Seq<(Seq<char>, Seq<char>)>, names: Seq<Seq<char>>) -> bool {
    forall|i: int| 0 <= i < cs.len() ==> names.contains(#[trigger] cs[i].0) && names.contains(cs[i].1)
}

/// The gathered names are those of the swimlanes' entities, no name occurs
/// twice, and every connector joins two of them.
pub open spec fn state_consistent(st: StateModel) -> bool {
    &&& st.names == model_entity_names(st.swimlanes)
    &&& st.names.no_duplicates()
    &&& connectors_within(st.connectors, st.names)
}

proof fn lemma_contains_extend(names: Seq<Seq<char>>, more: Seq<Seq<char>>, x: Seq<char>)
    requires
        names.contains(x),
    ensures
        (names + more).contains(x),
{
    let i = choose|i: int| 0 <= i < names.len() && names[i] == x;
    assert((names + more)[i] == x);
}

proof fn lemma_entities_names(
    input: Seq<char>,
    pos: int,
    names: Seq<Seq<char>>,
    acc: Seq<(EntityKindModel, Seq<char>)>,
)
    requires
        0 <= pos <= input.len(),
        names.no_duplicates(),
    ensures
        spec_parse_entities(input, pos, names, acc) matches Ok((ents, p, names2)) ==> {
            &&& acc.len() <= ents.len()
            &&& ents.subrange(0, acc.len() as int) == acc
            &&& names2 == names + entity_names_of(ents.subrange(acc.len() as int, ents.len() as int))
            &&& names2.no_duplicates()
        },
    decreases input.len() - pos,
{
    lemma_token_end(input, pos);
    if let Some((k, e)) = token_at(input, pos) {
        if k is Dash {
            lemma_entity_progress(input, e, names);
            if let Ok((ent, p, names2)) = spec_parse_entity(input, e, names) {
                assert(names2 == names.push(ent.1));
                assert(names2.no_duplicates()) by {
                    assert forall|i: int, j: int| 0 <= i < j < names2.len() implies names2[i] != names2[j] by {
                        if j == names.len() {
                            assert(names[i] == names2[i]);
                        }
                    }
                }
                lemma_entities_names(input, p, names2, acc.push(ent));
                if let Ok((ents, q, names3)) = spec_parse_entities(input, p, names2, acc.push(ent)) {
                    let rest = ents.subrange(acc.len() + 1int, ents.len() as int);
                    assert(ents.subrange(0, acc.len() as int) =~= acc.push(ent).subrange(0, acc.len() as int));
                    assert(acc.push(ent).subrange(0, acc.len() as int) =~= acc);
                    assert(ents[acc.len() as int] == acc.push(ent)[acc.len() as int]);
                    assert(entity_names_of(ents.subrange(acc.len() as int, ents.len() as int)) =~= seq![ent.1]
                        + entity_names_of(rest));
                    assert(names3 =~= names + entity_names_of(ents.subrange(acc.len() as int, ents.len() as int)));
                }
            }
        } else {
            assert(acc.subrange(0, acc.len() as int) =~= acc);
            assert(entity_names_of(acc.subrange(acc.len() as int, acc.len() as int)) =~= Seq::empty());
            assert(names + Seq::<Seq<char>>::empty() =~= names);
        }
    } else {
        assert(acc.subrange(0, acc.len() as int) =~= acc);
        assert(entity_names_of(acc.subrange(acc.len() as int, acc.len() as int)) =~= Seq::empty());
        assert(names + Seq::<Seq<char>>::empty() =~= names);
    }
}

proof fn lemma_body_consistent(input: Seq<char>, pos: int, st: StateModel)
    requires
        state_consistent(st),
    ensures
        spec_parse_body(input, pos, st) matches Ok(st2) ==> state_consistent(st2),
    decreases input.len() - pos,
{
    if 0 <= pos <= input.len() {
        lemma_next_significant(input, pos);
        if let Some((k, s, e)) = next_significant(input, pos) {
            lemma_token_end(input, s);
            match k {
                KindModel::Swimlane => {
                    lemma_swimlane_progress(input, e, st.names);
                    lemma_token_end(input, e);
                    if let Ok((lane, p, names2)) = spec_parse_swimlane(input, e, st.names) {
                        let (ck, ce) = token_at(input, e)->Some_0;
                        lemma_after_line(input, ce);
                        lemma_entities_names(input, after_line(input, ce), st.names, Seq::empty());
                        let lanes2 = st.swimlanes.push(lane);
                        assert(lanes2.drop_last() =~= st.swimlanes);
                        assert(lane.entities.subrange(0, lane.entities.len() as int) =~= lane.entities);
                        assert(all_entities(lanes2) == all_entities(st.swimlanes) + lane.entities);
                        assert(entity_names_of(all_entities(st.swimlanes) + lane.entities) =~= entity_names_of(
                            all_entities(st.swimlanes),
                        ) + entity_names_of(lane.entities));
                        assert(model_entity_names(lanes2) == names2);
                        assert forall|i: int| 0 <= i < st.connectors.len() implies names2.contains(
                            #[trigger] st.connectors[i].0,
                        ) && names2.contains(st.connectors[i].1) by {
                            lemma_contains_extend(st.names, entity_names_of(lane.entities), st.connectors[i].0);
                            lemma_contains_extend(st.names, entity_names_of(lane.entities), st.connectors[i].1);
                        }
                        lemma_body_consistent(
                            input,
                            p,
                            StateModel { swimlanes: lanes2, connectors: st.connectors, names: names2 },
                        );
                    }
                },
                KindModel::Text(from) => {
                    match token_at(input, e) {
                        None => {
                            lemma_body_consistent(input, e, st);
                        },
                        Some((k2, e2)) => {
                            if k2 is Arrow {
                                lemma_token_end(input, e);
                                lemma_token_end(input, e2);
                                if let Ok((c, p)) = spec_parse_connector(input, e2, from, st.names) {
                                    let cs2 = st.connectors.push(c);
                                    assert forall|i: int| 0 <= i < cs2.len() implies st.names.contains(
                                        #[trigger] cs2[i].0,
                                    ) && st.names.contains(cs2[i].1) by {
                                        if i < st.connectors.len() {
                                            assert(cs2[i] == st.connectors[i]);
                                            assert(st.names.contains(st.connectors[i].0));
                                        } else {
                                            let (tk, te) = token_at(input, e2)->Some_0;
                                            assert(tk is Text);
                                            assert(c == (from, tk->Text_0));
                                            assert(cs2[i] == c);
                                            assert(st.names.contains(from));
                                            assert(st.names.contains(tk->Text_0));
                                        }
                                    }
                                    let st2 = StateModel { swimlanes: st.swimlanes, connectors: cs2, names: st.names };
                                    assert(connectors_within(cs2, st.names));
                                    assert(state_consistent(st2));
                                    lemma_body_consistent(input, p, st2);
                                }
                            }
                        },
                    }
                },
                _ => {},
            }
        }
    }
}

/// A model that parses declares every entity name once, across all its
/// swimlanes, and each of its connectors joins two declared entities.
pub proof fn lemma_parsed_model_consistent(input: Seq<char>)
    ensures
        spec_parse(input) matches Ok(m) ==> {
            &&& model_entity_names(m.swimlanes).no_duplicates()
            &&& connectors_within(m.connectors, model_entity_names(m.swimlanes))
        },
{
    if let Ok((title, p)) = spec_parse_title(input) {
        let st = StateModel { swimlanes: Seq::empty(), connectors: Seq::empty(), names: Seq::empty() };
        assert(model_entity_names(st.swimlanes) =~= Seq::empty());
        lemma_body_consistent(input, p, st);
    }
}

/// A sequence of strings as sequences of characters.
pub open spec fn names_model(names: Seq<String>) -> Seq<Seq<char>> {
    names.map_values(|s: String| s@)
}

/// Whether `name` is among `names`.
fn contains_name(names: &Vec<String>, name: &str) -> (r: bool)
    ensures
        r == names_model(names@).contains(name@),
{
    let n = names.len();
    for i in 0..n
        invariant
            n == names@.len(),
            forall|j: int| 0 <= j < i ==> names@[j]@ != name@,
    {
        if str_equal(names[i].as_str(), name) {
            assert(names_model(names@)[i as int] == name@);
            return true;
        }
    }
    assert(!names_model(names@).contains(name@)) by {
        if names_model(names@).contains(name@) {
            let j = choose|j: int| 0 <= j < names_model(names@).len() && names_model(names@)[j] == name@;
            assert(names@[j]@ == name@);
        }
    }
    false
}

/// A string holding the characters of `s`.
fn owned(s: &str) -> (r: String)
    ensures
        r@ == s@,
{
    s.to_owned()
}

/// How a token is shown in error messages (see `describe`).
pub fn describe_kind(k: &TokenKind) -> (r: String)
    ensures
        r@ == describe(k@),
{
    match k {
        TokenKind::Title => owned("Title"),
        TokenKind::Swimlane => owned("Swimlane"),
        TokenKind::Command => owned("Command"),
        TokenKind::Event => owned("Event"),
        TokenKind::Projection => owned("Projection"),
        TokenKind::Policy => owned("Policy"),
        TokenKind::ExternalSystem => owned("ExternalSystem"),
        TokenKind::Aggregate => owned("Aggregate"),
        TokenKind::Colon => owned("Colon"),
        TokenKind::Dash => owned("Dash"),
        TokenKind::Arrow => owned("Arrow"),
        TokenKind::Newline => owned("Newline"),
        TokenKind::Text(w) => {
            let mut s = owned("Text(\"");
            append_str(&mut s, w.as_str());
            append_str(&mut s, "\")");
            s
        },
        TokenKind::Indent(n) => {
            let mut s = owned("Indent(");
            push_decimal(&mut s, *n as u64);
            append_str(&mut s, ")");
            s
        },
    }
}

/// The error for a token that is not the expected one.
fn unexpected_token(expected: &str, t: &Token) -> (r: ParseError)
    ensures
        r@ == (ErrorModel::UnexpectedToken {
            expected: expected@,
            found: describe(t.kind@),
            line: t.line as int,
            column: t.column as int,
        }),
{
    ParseError::UnexpectedToken {
        expected: owned(expected),
        found: describe_kind(&t.kind),
        line: t.line,
        column: t.column,
    }
}

/// The error for an input that ends where `expected` was wanted.
fn end_of_input(expected: &str, line: usize, column: usize) -> (r: ParseError)
    ensures
        r@ == ended(expected@, line as int, column as int),
{
    ParseError::UnexpectedToken { expected: owned(expected), found: owned("end of input"), line, column }
}

/// Simple event model parser.
pub struct EventModelParser;

impl EventModelParser {
    /// Creates a new parser instance.
    pub fn new() -> (r: Self) {
        EventModelParser
    }

    /// Parses `input`. The result, a model or an error, is the one that
    /// `spec_parse` gives for the input's characters.
    pub fn parse(&self, input: &str) -> (r: Result<ParsedEventModel, ParseError>)
        requires
            input@.len() <= usize::MAX / 8,
        ensures
            match spec_parse(input@) {
                Ok(m) => r matches Ok(v) && v@ == m,
                Err(e) => r matches Err(v) && v@ == e,
            },
    {
        let mut lexer = Lexer::new(input);
        let mut state = ParserState::new();
        match state.parse_title(&mut lexer) {
            Ok(()) => {},
            Err(e) => return Err(e),
        }
        let ghost text = input@;
        let ghost p0 = lexer.pos();
        let ghost title = spec_parse_title(text)->Ok_0.0;
        proof {
            lexer.lemma_pos_within();
        }
        let ghost start = state.model();
        let ghost target = spec_parse_body(text, p0, start);
        loop
            invariant_except_break
                spec_parse_body(text, lexer.pos(), state.model()) == target,
            invariant
                lexer.wf(),
                lexer.text() == text,
                text == input@,
                0 <= lexer.pos() <= text.len(),
                state.title is Some,
                spec_parse_title(text) == Ok::<(Seq<char>, int), ErrorModel>((title, p0)),
                state.title matches Some(n) && n@ == title,
                start == (StateModel { swimlanes: Seq::empty(), connectors: Seq::empty(), names: Seq::empty() }),
                target == spec_parse_body(text, p0, start),
            ensures
                target == Ok::<StateModel, ErrorModel>(state.model()),
            decreases text.len() - lexer.pos(),
        {
            let ghost pos = lexer.pos();
            proof {
                lemma_next_significant(text, pos);
            }
            let mut token: Option<Token> = None;
            let ghost mut start_of_token: int = pos;
            loop
                invariant_except_break
                    lexer.wf(),
                    lexer.text() == text,
                    token is None,
                    pos <= lexer.pos() <= text.len(),
                    next_significant(text, lexer.pos()) == next_significant(text, pos),
                invariant
                    lexer.wf(),
                    lexer.text() == text,
                    0 <= pos <= text.len(),
                    0 <= lexer.pos() <= text.len(),
                ensures
                    lexer.wf(),
                    lexer.text() == text,
                    match next_significant(text, pos) {
                        None => token is None,
                        Some((k, s, e)) => token matches Some(t) && t.kind@ == k && e == lexer.pos()
                            && s == start_of_token && t.line == line_of(text, s)
                            && t.column == column_of(text, s),
                    },
                decreases text.len() - lexer.pos(),
            {
                let ghost before = lexer.pos();
                proof {
                    lemma_token_end(text, before);
                }
                match lexer.next_token() {
                    None => break,
                    Some(t) => {
                        if !t.kind.is_newline() {
                            proof {
                                start_of_token = before;
                            }
                            token = Some(t);
                            break;
                        }
                    },
                }
            }
            let token = match token {
                None => break,
                Some(t) => t,
            };
            proof {
                lemma_token_end(text, start_of_token);
            }
            match token.kind {
                TokenKind::Swimlane => {
                    proof {
                        lemma_swimlane_progress(text, lexer.pos(), state.model().names);
                    }
                    match state.parse_swimlane(&mut lexer) {
                        Ok(()) => {},
                        Err(e) => return Err(e),
                    }
                },
                TokenKind::Text(from) => {
                    let ghost e = lexer.pos();
                    proof {
                        lemma_token_end(text, e);
                    }
                    match lexer.next_token() {
                        Some(arrow) => {
                            if arrow.kind.is_arrow() {
                                proof {
                                    lemma_token_end(text, lexer.pos());
                                }
                                match state.parse_connector(&mut lexer, from) {
                                    Ok(()) => {},
                                    Err(e) => return Err(e),
                                }
                            } else {
                                return Err(unexpected_token("-> or newline", &arrow));
                            }
                        },
                        None => {},
                    }
                },
                _ => {
                    return Err(unexpected_token("Swimlane or connector", &token));
                },
            }
        }
        Ok(state.build())
    }
}

impl Default for EventModelParser {
    fn default() -> (r: Self) {
        EventModelParser::new()
    }
}

/// What the parser has gathered so far.
struct ParserState {
    title: Option<NonEmptyString>,
    swimlanes: Vec<ParsedSwimlane>,
    connectors: Vec<ParsedConnector>,
    entity_names: Vec<String>,
}

impl ParserState {
    /// The swimlanes, connectors and declared names gathered so far.
    closed spec fn model(&self) -> StateModel {
        StateModel {
            swimlanes: self.swimlanes@.map_values(|s: ParsedSwimlane| s@),
            connectors: self.connectors@.map_values(|c: ParsedConnector| c@),
            names: names_model(self.entity_names@),
        }
    }

    fn new() -> (r: Self)
        ensures
            r.title is None,
            r.model() == (StateModel { swimlanes: Seq::empty(), connectors: Seq::empty(), names: Seq::empty() }),
    {
        let r = ParserState { title: None, swimlanes: Vec::new(), connectors: Vec::new(), entity_names: Vec::new() };
        assert(r.model().swimlanes =~= Seq::empty());
        assert(r.model().connectors =~= Seq::empty());
        assert(r.model().names =~= Seq::empty());
        r
    }

    /// Reads `Title`, `:` and the title line.
    fn parse_title(&mut self, lexer: &mut Lexer) -> (r: Result<(), ParseError>)
        requires
            old(lexer).wf(),
            old(lexer).pos() == 0,
        ensures
            final(lexer).wf(),
            final(lexer).text() == old(lexer).text(),
            final(self).model() == old(self).model(),
            match spec_parse_title(old(lexer).text()) {
                Ok((t, p)) => final(self).title matches Some(n) && n@ == t && r is Ok && final(lexer).pos() == p,
                Err(e) => r matches Err(v) && v@ == e,
            },
    {
        let ghost text = lexer.text();
        let title_token = match lexer.next_token() {
            None => return Err(ParseError::MissingTitle),
            Some(t) => t,
        };
        match title_token.kind {
            TokenKind::Title => {},
            _ => return Err(ParseError::MissingTitle),
        }
        let colon = match lexer.next_token() {
            None => return Err(end_of_input(":", title_token.line, title_token.column)),
            Some(t) => t,
        };
        if !colon.kind.is_colon() {
            return Err(unexpected_token(":", &colon));
        }
        let title_text = lexer.read_line();
        if title_text.as_str().unicode_len() == 0 {
            return Err(ParseError::InvalidIdentifier(owned("Empty title")));
        }
        match NonEmptyString::parse(title_text) {
            Ok(t) => {
                self.title = Some(t);
                Ok(())
            },
            Err(_) => Err(ParseError::InvalidIdentifier(owned("Empty title"))),
        }
    }

    /// Reads a swimlane after its keyword: `:`, its name, and its entities.
    fn parse_swimlane(&mut self, lexer: &mut Lexer) -> (r: Result<(), ParseError>)
        requires
            old(lexer).wf(),
        ensures
            final(lexer).wf(),
            final(lexer).text() == old(lexer).text(),
            final(self).title == old(self).title,
            match spec_parse_swimlane(old(lexer).text(), old(lexer).pos(), old(self).model().names) {
                Ok((lane, p, names2)) => r is Ok && final(lexer).pos() == p && final(self).model() == (StateModel {
                    swimlanes: old(self).model().swimlanes.push(lane),
                    connectors: old(self).model().connectors,
                    names: names2,
                }),
                Err(e) => r matches Err(v) && v@ == e,
            },
    {
        let ghost text = lexer.text();
        let ghost pos0 = lexer.pos();
        let colon = match lexer.next_token() {
            None => return Err(end_of_input(":", 0, 0)),
            Some(t) => t,
        };
        if !colon.kind.is_colon() {
            return Err(unexpected_token(":", &colon));
        }
        let name = lexer.read_line();
        if name.as_str().unicode_len() == 0 {
            return Err(ParseError::InvalidIdentifier(owned("Empty swimlane name")));
        }
        let swimlane_name = match NonEmptyString::parse(name) {
            Ok(n) => n,
            Err(_) => return Err(ParseError::InvalidIdentifier(owned("Empty swimlane name"))),
        };
        let mut entities: Vec<ParsedEntity> = Vec::new();
        let mut failure: Option<ParseError> = None;
        let ghost names0 = self.model().names;
        let ghost first = lexer.pos();
        proof {
            lexer.lemma_pos_within();
            assert(entities@.map_values(|e: ParsedEntity| e@) =~= Seq::empty());
        }
        let ghost target = spec_parse_entities(text, first, names0, Seq::empty());
        loop
            invariant_except_break
                failure is None,
                spec_parse_entities(text, lexer.pos(), self.model().names, entities@.map_values(|e: ParsedEntity| e@))
                    == target,
            invariant
                lexer.wf(),
                lexer.text() == text,
                0 <= lexer.pos() <= text.len(),
                self.title == old(self).title,
                self.swimlanes == old(self).swimlanes,
                self.connectors == old(self).connectors,
                target == spec_parse_entities(text, first, names0, Seq::empty()),
            ensures
                match failure {
                    Some(e) => target == Err::<(Seq<(EntityKindModel, Seq<char>)>, int, Seq<Seq<char>>), ErrorModel>(e@),
                    None => target == Ok::<_, ErrorModel>(
                        (entities@.map_values(|e: ParsedEntity| e@), lexer.pos(), self.model().names),
                    ),
                },
            decreases text.len() - lexer.pos(),
        {
            let ghost pos = lexer.pos();
            proof {
                lemma_token_end(text, pos);
            }
            match lexer.next_token() {
                Some(token) => {
                    if token.kind.is_dash() {
                        proof {
                            lemma_entity_progress(text, lexer.pos(), self.model().names);
                        }
                        match self.parse_entity(lexer) {
                            Ok(entity) => {
                                let ghost before = entities@.map_values(|e: ParsedEntity| e@);
                                entities.push(entity);
                                assert(entities@.map_values(|e: ParsedEntity| e@) =~= before.push(entity@));
                            },
                            Err(e) => {
                                proof {
                                    lexer.lemma_pos_within();
                                }
                                failure = Some(e);
                                break;
                            },
                        }
                    } else {
                        break;
                    }
                },
                None => break,
            }
        }
        match failure {
            Some(e) => return Err(e),
            None => {},
        }
        let ghost ents = entities@.map_values(|e: ParsedEntity| e@);
        let lane = ParsedSwimlane { name: swimlane_name, entities };
        let ghost lanes0 = self.swimlanes@;
        self.swimlanes.push(lane);
        assert(self.swimlanes@.map_values(|s: ParsedSwimlane| s@) =~= lanes0.map_values(|s: ParsedSwimlane| s@).push(lane@));
        Ok(())
    }

    /// Reads one entity after its dash: kind, `:` and name.
    fn parse_entity(&mut self, lexer: &mut Lexer) -> (r: Result<ParsedEntity, ParseError>)
        requires
            old(lexer).wf(),
        ensures
            final(lexer).wf(),
            final(lexer).text() == old(lexer).text(),
            final(self).title == old(self).title,
            final(self).swimlanes == old(self).swimlanes,
            final(self).connectors == old(self).connectors,
            match spec_parse_entity(old(lexer).text(), old(lexer).pos(), old(self).model().names) {
                Ok((ent, p, names2)) => r matches Ok(v) && v@ == ent && final(lexer).pos() == p
                    && final(self).model().names == names2,
                Err(e) => r matches Err(v) && v@ == e,
            },
    {
        let ghost text = lexer.text();
        let ghost pos0 = lexer.pos();
        let type_token = match lexer.next_token() {
            None => return Err(end_of_input("entity type", 0, 0)),
            Some(t) => t,
        };
        let colon = match lexer.next_token() {
            None => return Err(end_of_input(":", type_token.line, type_token.column)),
            Some(t) => t,
        };
        if !colon.kind.is_colon() {
            return Err(unexpected_token(":", &colon));
        }
        let name = lexer.read_line();
        if name.as_str().unicode_len() == 0 {
            return Err(ParseError::InvalidIdentifier(owned("Empty entity name")));
        }
        if contains_name(&self.entity_names, name.as_str()) {
            return Err(ParseError::DuplicateEntity(name));
        }
        let ghost names0 = self.entity_names@;
        self.entity_names.push(name.clone());
        assert(names_model(self.entity_names@) =~= names_model(names0).push(name@));
        let entity_name = match NonEmptyString::parse(name) {
            Ok(n) => n,
            Err(_) => return Err(ParseError::InvalidIdentifier(owned("Empty entity name"))),
        };
        match type_token.kind {
            TokenKind::Command => Ok(ParsedEntity::Command(entity_name)),
            TokenKind::Event => Ok(ParsedEntity::Event(entity_name)),
            TokenKind::Projection => Ok(ParsedEntity::Projection(entity_name)),
            TokenKind::Policy => Ok(ParsedEntity::Policy(entity_name)),
            TokenKind::ExternalSystem => Ok(ParsedEntity::ExternalSystem(entity_name)),
            TokenKind::Aggregate => Ok(ParsedEntity::Aggregate(entity_name)),
            _ => Err(unexpected_token("entity type", &type_token)),
        }
    }

    /// Reads a connector's target after the arrow and checks both ends.
    fn parse_connector(&mut self, lexer: &mut Lexer, from: String) -> (r: Result<(), ParseError>)
        requires
            old(lexer).wf(),
        ensures
            final(lexer).wf(),
            final(lexer).text() == old(lexer).text(),
            final(self).title == old(self).title,
            match spec_parse_connector(old(lexer).text(), old(lexer).pos(), from@, old(self).model().names) {
                Ok((c, p)) => r is Ok && final(lexer).pos() == p && final(self).model() == (StateModel {
                    swimlanes: old(self).model().swimlanes,
                    connectors: old(self).model().connectors.push(c),
                    names: old(self).model().names,
                }),
                Err(e) => r matches Err(v) && v@ == e,
            },
    {
        let to_token = match lexer.next_token() {
            None => return Err(end_of_input("connector target", 0, 0)),
            Some(t) => t,
        };
        let to = match &to_token.kind {
            TokenKind::Text(text) => text.clone(),
            _ => return Err(unexpected_token("connector target", &to_token)),
        };
        if !contains_name(&self.entity_names, from.as_str()) {
            return Err(ParseError::UnknownEntity(from));
        }
        if !contains_name(&self.entity_names, to.as_str()) {
            return Err(ParseError::UnknownEntity(to));
        }
        let from_id = match Identifier::parse(from.clone()) {
            Ok(id) => id,
            Err(_) => return Err(ParseError::InvalidIdentifier(from)),
        };
        let to_id = match Identifier::parse(to.clone()) {
            Ok(id) => id,
            Err(_) => return Err(ParseError::InvalidIdentifier(to)),
        };
        let ghost cs0 = self.connectors@;
        let c = ParsedConnector { from: from_id, to: to_id };
        self.connectors.push(c);
        assert(self.connectors@.map_values(|c: ParsedConnector| c@) =~= cs0.map_values(|c: ParsedConnector| c@).push(c@));
        Ok(())
    }

    /// The finished model.
    fn build(self) -> (r: ParsedEventModel)
        requires
            self.title is Some,
        ensures
            self.title matches Some(t) && r@ == (ModelSpec {
                title: t@,
                swimlanes: self.model().swimlanes,
                connectors: self.model().connectors,
            }),
    {
        ParsedEventModel { title: self.title.unwrap(), swimlanes: self.swimlanes, connectors: self.connectors }
    }
}

} // verus!
