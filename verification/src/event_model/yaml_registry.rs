//! Entity registry for YAML-based event models: every entity of the model
//! by kind, the slices with their connections, and the queries and checks
//! the connections call for.

use super::yaml_to_diagram_converter::{before_dot, text_before_dot};
use super::yaml_types::{
    AutomationDefinition, AutomationName, CommandDefinition, CommandName, Connection, EntityReference,
    EventDefinition, EventName, ProjectionDefinition, ProjectionName, QueryDefinition, QueryName, SliceName,
    ViewDefinition, ViewName, YamlEventModel,
};
use crate::infrastructure::text::{append_str, str_equal};
use crate::infrastructure::types::NonEmpty;
use vstd::prelude::*;

verus! {

broadcast use crate::infrastructure::types::lemma_non_empty_len;

/// Registry for YAML event model entities.
#[derive(Debug, Clone)]
pub struct YamlEntityRegistry {
    /// Events by name.
    pub events: Vec<(EventName, EventDefinition)>,
    /// Commands by name.
    pub commands: Vec<(CommandName, CommandDefinition)>,
    /// Views by name.
    pub views: Vec<(ViewName, ViewDefinition)>,
    /// Projections by name.
    pub projections: Vec<(ProjectionName, ProjectionDefinition)>,
    /// Queries by name.
    pub queries: Vec<(QueryName, QueryDefinition)>,
    /// Automations by name.
    pub automations: Vec<(AutomationName, AutomationDefinition)>,
    /// Slices defining connections between entities.
    pub slices: Vec<(SliceName, NonEmpty<Connection>)>,
}

/// Entity names grouped by type.
#[derive(Debug, Clone)]
pub struct EntityNamesByType {
    /// Event names.
    pub events: Vec<EventName>,
    /// Command names.
    pub commands: Vec<CommandName>,
    /// View names.
    pub views: Vec<ViewName>,
    /// Projection names.
    pub projections: Vec<ProjectionName>,
    /// Query names.
    pub queries: Vec<QueryName>,
    /// Automation names.
    pub automations: Vec<AutomationName>,
}

/// Validation errors for entity references.
#[derive(Debug, Clone)]
pub enum ValidationError {
    /// Invalid source entity in connection.
    InvalidSource {
        /// The slice containing the invalid connection.
        slice: SliceName,
        /// The invalid entity reference.
        reference: EntityReference,
        /// Reason for the error.
        reason: String,
    },
    /// Invalid target entity in connection.
    InvalidTarget {
        /// The slice containing the invalid connection.
        slice: SliceName,
        /// The invalid entity reference.
        reference: EntityReference,
        /// Reason for the error.
        reason: String,
    },
}

/// A reference as the specifications compare it: its kind (numbered in
/// declaration order) and its text.
pub open spec fn ref_key(r: EntityReference) -> (int, Seq<char>) {
    match r {
        EntityReference::Event(n) => (0, n@),
        EntityReference::Command(n) => (1, n@),
        EntityReference::View(p) => (2, p@),
        EntityReference::Projection(n) => (3, n@),
        EntityReference::Query(n) => (4, n@),
        EntityReference::Automation(n) => (5, n@),
    }
}

/// A connection as the specifications compare it.
pub open spec fn conn_key(c: Connection) -> ((int, Seq<char>), (int, Seq<char>)) {
    (ref_key(c.from), ref_key(c.to))
}

/// A copy of a reference.
pub fn copy_reference(r: &EntityReference) -> (c: EntityReference)
    ensures
        ref_key(c) == ref_key(*r),
{
    match r {
        EntityReference::Event(n) => EntityReference::Event(n.clone()),
        EntityReference::Command(n) => EntityReference::Command(n.clone()),
        EntityReference::View(p) => EntityReference::View(p.clone()),
        EntityReference::Projection(n) => EntityReference::Projection(n.clone()),
        EntityReference::Query(n) => EntityReference::Query(n.clone()),
        EntityReference::Automation(n) => EntityReference::Automation(n.clone()),
    }
}

/// Whether two references designate the same entity text of the same kind.
pub fn same_reference(a: &EntityReference, b: &EntityReference) -> (r: bool)
    ensures
        r == (ref_key(*a) == ref_key(*b)),
{
    match (a, b) {
        (EntityReference::Event(x), EntityReference::Event(y)) => str_equal(
            x.clone().into_inner().as_str(),
            y.clone().into_inner().as_str(),
        ),
        (EntityReference::Command(x), EntityReference::Command(y)) => str_equal(
            x.clone().into_inner().as_str(),
            y.clone().into_inner().as_str(),
        ),
        (EntityReference::View(x), EntityReference::View(y)) => str_equal(
            x.clone().into_inner().as_str(),
            y.clone().into_inner().as_str(),
        ),
        (EntityReference::Projection(x), EntityReference::Projection(y)) => str_equal(
            x.clone().into_inner().as_str(),
            y.clone().into_inner().as_str(),
        ),
        (EntityReference::Query(x), EntityReference::Query(y)) => str_equal(
            x.clone().into_inner().as_str(),
            y.clone().into_inner().as_str(),
        ),
        (EntityReference::Automation(x), EntityReference::Automation(y)) => str_equal(
            x.clone().into_inner().as_str(),
            y.clone().into_inner().as_str(),
        ),
        _ => false,
    }
}

/// Whether some entry of `names` has the text `n`.
pub open spec fn has_name<N: View<V = Seq<char>>, D>(entries: Seq<(N, D)>, n: Seq<char>) -> bool {
    exists|k: int| 0 <= k < entries.len() && (#[trigger] entries[k]).0@ == n
}

/// The text that names what a reference designates: a view path names its
/// view, before the first `.`.
pub open spec fn designated_name(r: EntityReference) -> Seq<char> {
    match r {
        EntityReference::View(p) => before_dot(p@),
        EntityReference::Event(n) => n@,
        EntityReference::Command(n) => n@,
        EntityReference::Projection(n) => n@,
        EntityReference::Query(n) => n@,
        EntityReference::Automation(n) => n@,
    }
}

impl YamlEntityRegistry {
    /// Whether the registry has the entity `r` designates.
    pub open spec fn defines(&self, r: EntityReference) -> bool {
        let n = designated_name(r);
        match r {
            EntityReference::Event(_) => has_name(self.events@, n),
            EntityReference::Command(_) => has_name(self.commands@, n),
            EntityReference::View(_) => has_name(self.views@, n),
            EntityReference::Projection(_) => has_name(self.projections@, n),
            EntityReference::Query(_) => has_name(self.queries@, n),
            EntityReference::Automation(_) => has_name(self.automations@, n),
        }
    }
}

/// A reference is valid exactly when an entity of its own kind has its
/// name: an event among the events, a command among the commands, a
/// projection among the projections, a query among the queries, an
/// automation among the automations, and a view path when a view has the
/// name before its first `.`.
pub proof fn lemma_reference_found_among_its_kind(reg: YamlEntityRegistry, r: EntityReference)
    ensures
        r matches EntityReference::Event(n) ==> (reg.defines(r) <==> exists|k: int|
            0 <= k < reg.events@.len() && #[trigger] reg.events@[k].0@ == n@),
        r matches EntityReference::Command(n) ==> (reg.defines(r) <==> exists|k: int|
            0 <= k < reg.commands@.len() && #[trigger] reg.commands@[k].0@ == n@),
        r matches EntityReference::Projection(n) ==> (reg.defines(r) <==> exists|k: int|
            0 <= k < reg.projections@.len() && #[trigger] reg.projections@[k].0@ == n@),
        r matches EntityReference::Query(n) ==> (reg.defines(r) <==> exists|k: int|
            0 <= k < reg.queries@.len() && #[trigger] reg.queries@[k].0@ == n@),
        r matches EntityReference::Automation(n) ==> (reg.defines(r) <==> exists|k: int|
            0 <= k < reg.automations@.len() && #[trigger] reg.automations@[k].0@ == n@),
        r matches EntityReference::View(p) ==> (reg.defines(r) <==> exists|k: int|
            0 <= k < reg.views@.len() && #[trigger] reg.views@[k].0@ == before_dot(p@)),
{
}

/// Why a reference is not valid: "<Kind> '<name>' not found".
pub open spec fn missing_message(r: EntityReference) -> Seq<char> {
    let kind = match r {
        EntityReference::Event(_) => "Event '"@,
        EntityReference::Command(_) => "Command '"@,
        EntityReference::View(_) => "View '"@,
        EntityReference::Projection(_) => "Projection '"@,
        EntityReference::Query(_) => "Query '"@,
        EntityReference::Automation(_) => "Automation '"@,
    };
    kind + designated_name(r) + "' not found"@
}

impl YamlEntityRegistry {
    /// Whether some event is named `name`.
    fn has_event(&self, name: &str) -> (r: bool)
        ensures
            r == has_name(self.events@, name@),
    {
        let n = self.events.len();
        for i in 0..n
            invariant
                n == self.events@.len(),
                forall|k: int| 0 <= k < i ==> (#[trigger] self.events@[k]).0@ != name@,
        {
            if str_equal(self.events[i].0.clone().into_inner().as_str(), name) {
                assert(self.events@[i as int].0@ == name@);
                return true;
            }
        }
        false
    }

    /// Whether some command is named `name`.
    fn has_command(&self, name: &str) -> (r: bool)
        ensures
            r == has_name(self.commands@, name@),
    {
        let n = self.commands.len();
        for i in 0..n
            invariant
                n == self.commands@.len(),
                forall|k: int| 0 <= k < i ==> (#[trigger] self.commands@[k]).0@ != name@,
        {
            if str_equal(self.commands[i].0.clone().into_inner().as_str(), name) {
                assert(self.commands@[i as int].0@ == name@);
                return true;
            }
        }
        false
    }

    /// Whether some view is named `name`.
    fn has_view(&self, name: &str) -> (r: bool)
        ensures
            r == has_name(self.views@, name@),
    {
        let n = self.views.len();
        for i in 0..n
            invariant
                n == self.views@.len(),
                forall|k: int| 0 <= k < i ==> (#[trigger] self.views@[k]).0@ != name@,
        {
            if str_equal(self.views[i].0.clone().into_inner().as_str(), name) {
                assert(self.views@[i as int].0@ == name@);
                return true;
            }
        }
        false
    }

    /// Whether some projection is named `name`.
    fn has_projection(&self, name: &str) -> (r: bool)
        ensures
            r == has_name(self.projections@, name@),
    {
        let n = self.projections.len();
        for i in 0..n
            invariant
                n == self.projections@.len(),
                forall|k: int| 0 <= k < i ==> (#[trigger] self.projections@[k]).0@ != name@,
        {
            if str_equal(self.projections[i].0.clone().into_inner().as_str(), name) {
                assert(self.projections@[i as int].0@ == name@);
                return true;
            }
        }
        false
    }

    /// Whether some query is named `name`.
    fn has_query(&self, name: &str) -> (r: bool)
        ensures
            r == has_name(self.queries@, name@),
    {
        let n = self.queries.len();
        for i in 0..n
            invariant
                n == self.queries@.len(),
                forall|k: int| 0 <= k < i ==> (#[trigger] self.queries@[k]).0@ != name@,
        {
            if str_equal(self.queries[i].0.clone().into_inner().as_str(), name) {
                assert(self.queries@[i as int].0@ == name@);
                return true;
            }
        }
        false
    }

    /// Whether some automation is named `name`.
    fn has_automation(&self, name: &str) -> (r: bool)
        ensures
            r == has_name(self.automations@, name@),
    {
        let n = self.automations.len();
        for i in 0..n
            invariant
                n == self.automations@.len(),
                forall|k: int| 0 <= k < i ==> (#[trigger] self.automations@[k]).0@ != name@,
        {
            if str_equal(self.automations[i].0.clone().into_inner().as_str(), name) {
                assert(self.automations@[i as int].0@ == name@);
                return true;
            }
        }
        false
    }

    /// Creates a new registry from a YAML event model.
    pub fn from_model(model: YamlEventModel) -> (r: Self)
        ensures
            r.events == model.events,
            r.commands == model.commands,
            r.views == model.views,
            r.projections == model.projections,
            r.queries == model.queries,
            r.automations == model.automations,
            r.slices == model.slices,
    {
        YamlEntityRegistry {
            events: model.events,
            commands: model.commands,
            views: model.views,
            projections: model.projections,
            queries: model.queries,
            automations: model.automations,
            slices: model.slices,
        }
    }

    /// Validates that an entity reference exists in the registry: `Ok` when
    /// it does, else the reason.
    pub fn validate_entity_reference(&self, reference: &EntityReference) -> (r: Result<(), String>)
        ensures
            match r {
                Ok(_) => self.defines(*reference),
                Err(m) => !self.defines(*reference) && m@ == missing_message(*reference),
            },
    {
        let (found, kind, name) = match reference {
            EntityReference::Event(n) => {
                let t = n.clone().into_inner().into_inner();
                (self.has_event(t.as_str()), "Event '", t)
            },
            EntityReference::Command(n) => {
                let t = n.clone().into_inner().into_inner();
                (self.has_command(t.as_str()), "Command '", t)
            },
            EntityReference::View(p) => {
                let t = text_before_dot(p.clone().into_inner().as_str());
                (self.has_view(t.as_str()), "View '", t)
            },
            EntityReference::Projection(n) => {
                let t = n.clone().into_inner().into_inner();
                (self.has_projection(t.as_str()), "Projection '", t)
            },
            EntityReference::Query(n) => {
                let t = n.clone().into_inner().into_inner();
                (self.has_query(t.as_str()), "Query '", t)
            },
            EntityReference::Automation(n) => {
                let t = n.clone().into_inner().into_inner();
                (self.has_automation(t.as_str()), "Automation '", t)
            },
        };
        if found {
            Ok(())
        } else {
            let mut m = String::new();
            append_str(&mut m, kind);
            append_str(&mut m, name.as_str());
            append_str(&mut m, "' not found");
            Err(m)
        }
    }

    /// The total number of entities across all types.
    pub open spec fn entity_total(&self) -> nat {
        self.events@.len() + self.commands@.len() + self.views@.len() + self.projections@.len()
            + self.queries@.len() + self.automations@.len()
    }

    /// Counts the total number of entities across all types.
    pub fn total_entity_count(&self) -> (r: usize)
        requires
            self.entity_total() <= usize::MAX,
        ensures
            r == self.entity_total(),
    {
        self.events.len() + self.commands.len() + self.views.len() + self.projections.len() + self.queries.len()
            + self.automations.len()
    }
}

/// All connections of the slices, slice by slice.
pub open spec fn all_connections(slices: Seq<(SliceName, NonEmpty<Connection>)>) -> Seq<Connection> {
    Seq::new(slices.len(), |i: int| slices[i].1@).flatten()
}

/// The keys of `s`, each once, in the order they first appear.
pub open spec fn distinct_keys(s: Seq<(int, Seq<char>)>) -> Seq<(int, Seq<char>)>
    decreases s.len(),
{
    if s.len() == 0 {
        Seq::empty()
    } else {
        let d = distinct_keys(s.drop_last());
        if d.contains(s.last()) {
            d
        } else {
            d.push(s.last())
        }
    }
}

/// The connections of `s` whose source (`from`) or target has key `key`.
pub open spec fn connections_with(s: Seq<Connection>, key: (int, Seq<char>), from: bool) -> Seq<Connection>
    decreases s.len(),
{
    if s.len() == 0 {
        Seq::empty()
    } else {
        let prev = connections_with(s.drop_last(), key, from);
        let c = s.last();
        if ref_key(if from { c.from } else { c.to }) == key {
            prev.push(c)
        } else {
            prev
        }
    }
}

/// The key of a connection's source (`from`) or target.
pub open spec fn endpoint_key(c: Connection, from: bool) -> (int, Seq<char>) {
    ref_key(if from { c.from } else { c.to })
}

/// A validation error as the specifications see it: whether it is about a
/// source, the slice's name, the reference's key and the reason.
pub type ErrorView = (bool, Seq<char>, (int, Seq<char>), Seq<char>);

/// The view of a validation error.
pub open spec fn error_view(e: ValidationError) -> ErrorView {
    match e {
        ValidationError::InvalidSource { slice, reference, reason } => (true, slice@, ref_key(reference), reason@),
        ValidationError::InvalidTarget { slice, reference, reason } => (false, slice@, ref_key(reference), reason@),
    }
}

/// The views of validation errors.
pub open spec fn error_views(v: Seq<ValidationError>) -> Seq<ErrorView> {
    v.map_values(|e: ValidationError| error_view(e))
}

impl ValidationError {
    /// The error's description: "Invalid source in slice '<slice>':
    /// <reason>", or "Invalid target ...".
    pub fn message(&self) -> (r: String)
        ensures
            r@ == (if error_view(*self).0 {
                "Invalid source in slice '"@
            } else {
                "Invalid target in slice '"@
            }) + error_view(*self).1 + "': "@ + error_view(*self).3,
    {
        let mut m = String::new();
        match self {
            ValidationError::InvalidSource { slice, reason, .. } => {
                append_str(&mut m, "Invalid source in slice '");
                append_str(&mut m, slice.clone().into_inner().as_str());
                append_str(&mut m, "': ");
                append_str(&mut m, reason.as_str());
            },
            ValidationError::InvalidTarget { slice, reason, .. } => {
                append_str(&mut m, "Invalid target in slice '");
                append_str(&mut m, slice.clone().into_inner().as_str());
                append_str(&mut m, "': ");
                append_str(&mut m, reason.as_str());
            },
        }
        m
    }
}

/// The keys of connections.
pub open spec fn conn_keys(s: Seq<Connection>) -> Seq<((int, Seq<char>), (int, Seq<char>))> {
    s.map_values(|c: Connection| conn_key(c))
}

/// The keys of references.
pub open spec fn ref_keys(s: Seq<EntityReference>) -> Seq<(int, Seq<char>)> {
    s.map_values(|r: EntityReference| ref_key(r))
}

/// A copy of a connection.
pub fn copy_connection(c: &Connection) -> (r: Connection)
    ensures
        conn_key(r) == conn_key(*c),
{
    Connection { from: copy_reference(&c.from), to: copy_reference(&c.to) }
}

/// Whether `out` holds a reference with the key of `r`.
fn holds_reference(out: &Vec<EntityReference>, r: &EntityReference) -> (b: bool)
    ensures
        b == ref_keys(out@).contains(ref_key(*r)),
{
    let n = out.len();
    for i in 0..n
        invariant
            n == out@.len(),
            forall|k: int| 0 <= k < i ==> ref_key(#[trigger] out@[k]) != ref_key(*r),
    {
        if same_reference(&out[i], r) {
            assert(ref_keys(out@)[i as int] == ref_key(*r));
            return true;
        }
    }
    assert(!ref_keys(out@).contains(ref_key(*r))) by {
        if ref_keys(out@).contains(ref_key(*r)) {
            let k = choose|k: int| 0 <= k < ref_keys(out@).len() && ref_keys(out@)[k] == ref_key(*r);
            assert(ref_key(out@[k]) == ref_key(*r));
        }
    }
    false
}

impl YamlEntityRegistry {
    /// The events' names, in order.
    fn events_names(&self) -> (r: Vec<EventName>)
        ensures
            r@.map_values(|n: EventName| n@) == self.events@.map_values(|p: (EventName, _)| p.0@),
    {
        let mut out: Vec<EventName> = Vec::new();
        let n = self.events.len();
        for i in 0..n
            invariant
                n == self.events@.len(),
                out@.map_values(|n: EventName| n@) == self.events@.map_values(|p: (EventName, _)| p.0@).take(i as int),
        {
            let ghost before = out@.map_values(|n: EventName| n@);
            out.push(self.events[i].0.clone());
            assert(out@.map_values(|n: EventName| n@) =~= before.push(self.events@[i as int].0@));
            assert(self.events@.map_values(|p: (EventName, _)| p.0@).take(i + 1) =~= self.events@.map_values(|p: (EventName, _)| p.0@).take(i as int).push(self.events@[i as int].0@));
        }
        assert(self.events@.map_values(|p: (EventName, _)| p.0@).take(n as int) =~= self.events@.map_values(|p: (EventName, _)| p.0@));
        out
    }

    /// The commands' names, in order.
    fn commands_names(&self) -> (r: Vec<CommandName>)
        ensures
            r@.map_values(|n: CommandName| n@) == self.commands@.map_values(|p: (CommandName, _)| p.0@),
    {
        let mut out: Vec<CommandName> = Vec::new();
        let n = self.commands.len();
        for i in 0..n
            invariant
                n == self.commands@.len(),
                out@.map_values(|n: CommandName| n@) == self.commands@.map_values(|p: (CommandName, _)| p.0@).take(i as int),
        {
            let ghost before = out@.map_values(|n: CommandName| n@);
            out.push(self.commands[i].0.clone());
            assert(out@.map_values(|n: CommandName| n@) =~= before.push(self.commands@[i as int].0@));
            assert(self.commands@.map_values(|p: (CommandName, _)| p.0@).take(i + 1) =~= self.commands@.map_values(|p: (CommandName, _)| p.0@).take(i as int).push(self.commands@[i as int].0@));
        }
        assert(self.commands@.map_values(|p: (CommandName, _)| p.0@).take(n as int) =~= self.commands@.map_values(|p: (CommandName, _)| p.0@));
        out
    }

    /// The views' names, in order.
    fn views_names(&self) -> (r: Vec<ViewName>)
        ensures
            r@.map_values(|n: ViewName| n@) == self.views@.map_values(|p: (ViewName, _)| p.0@),
    {
        let mut out: Vec<ViewName> = Vec::new();
        let n = self.views.len();
        for i in 0..n
            invariant
                n == self.views@.len(),
                out@.map_values(|n: ViewName| n@) == self.views@.map_values(|p: (ViewName, _)| p.0@).take(i as int),
        {
            let ghost before = out@.map_values(|n: ViewName| n@);
            out.push(self.views[i].0.clone());
            assert(out@.map_values(|n: ViewName| n@) =~= before.push(self.views@[i as int].0@));
            assert(self.views@.map_values(|p: (ViewName, _)| p.0@).take(i + 1) =~= self.views@.map_values(|p: (ViewName, _)| p.0@).take(i as int).push(self.views@[i as int].0@));
        }
        assert(self.views@.map_values(|p: (ViewName, _)| p.0@).take(n as int) =~= self.views@.map_values(|p: (ViewName, _)| p.0@));
        out
    }

    /// The projections' names, in order.
    fn projections_names(&self) -> (r: Vec<ProjectionName>)
        ensures
            r@.map_values(|n: ProjectionName| n@) == self.projections@.map_values(|p: (ProjectionName, _)| p.0@),
    {
        let mut out: Vec<ProjectionName> = Vec::new();
        let n = self.projections.len();
        for i in 0..n
            invariant
                n == self.projections@.len(),
                out@.map_values(|n: ProjectionName| n@) == self.projections@.map_values(|p: (ProjectionName, _)| p.0@).take(i as int),
        {
            let ghost before = out@.map_values(|n: ProjectionName| n@);
            out.push(self.projections[i].0.clone());
            assert(out@.map_values(|n: ProjectionName| n@) =~= before.push(self.projections@[i as int].0@));
            assert(self.projections@.map_values(|p: (ProjectionName, _)| p.0@).take(i + 1) =~= self.projections@.map_values(|p: (ProjectionName, _)| p.0@).take(i as int).push(self.projections@[i as int].0@));
        }
        assert(self.projections@.map_values(|p: (ProjectionName, _)| p.0@).take(n as int) =~= self.projections@.map_values(|p: (ProjectionName, _)| p.0@));
        out
    }

    /// The queries' names, in order.
    fn queries_names(&self) -> (r: Vec<QueryName>)
        ensures
            r@.map_values(|n: QueryName| n@) == self.queries@.map_values(|p: (QueryName, _)| p.0@),
    {
        let mut out: Vec<QueryName> = Vec::new();
        let n = self.queries.len();
        for i in 0..n
            invariant
                n == self.queries@.len(),
                out@.map_values(|n: QueryName| n@) == self.queries@.map_values(|p: (QueryName, _)| p.0@).take(i as int),
        {
            let ghost before = out@.map_values(|n: QueryName| n@);
            out.push(self.queries[i].0.clone());
            assert(out@.map_values(|n: QueryName| n@) =~= before.push(self.queries@[i as int].0@));
            assert(self.queries@.map_values(|p: (QueryName, _)| p.0@).take(i + 1) =~= self.queries@.map_values(|p: (QueryName, _)| p.0@).take(i as int).push(self.queries@[i as int].0@));
        }
        assert(self.queries@.map_values(|p: (QueryName, _)| p.0@).take(n as int) =~= self.queries@.map_values(|p: (QueryName, _)| p.0@));
        out
    }

    /// The automations' names, in order.
    fn automations_names(&self) -> (r: Vec<AutomationName>)
        ensures
            r@.map_values(|n: AutomationName| n@) == self.automations@.map_values(|p: (AutomationName, _)| p.0@),
    {
        let mut out: Vec<AutomationName> = Vec::new();
        let n = self.automations.len();
        for i in 0..n
            invariant
                n == self.automations@.len(),
                out@.map_values(|n: AutomationName| n@) == self.automations@.map_values(|p: (AutomationName, _)| p.0@).take(i as int),
        {
            let ghost before = out@.map_values(|n: AutomationName| n@);
            out.push(self.automations[i].0.clone());
            assert(out@.map_values(|n: AutomationName| n@) =~= before.push(self.automations@[i as int].0@));
            assert(self.automations@.map_values(|p: (AutomationName, _)| p.0@).take(i + 1) =~= self.automations@.map_values(|p: (AutomationName, _)| p.0@).take(i as int).push(self.automations@[i as int].0@));
        }
        assert(self.automations@.map_values(|p: (AutomationName, _)| p.0@).take(n as int) =~= self.automations@.map_values(|p: (AutomationName, _)| p.0@));
        out
    }

    /// The distinct sources (`from`) or targets of all connections, in the
    /// order they first appear.
    fn endpoint_entities(&self, from: bool) -> (r: Vec<EntityReference>)
        requires
            forall|i: int| 0 <= i < self.slices@.len() ==> (#[trigger] self.slices@[i]).1@.len() <= usize::MAX,
        ensures
            ref_keys(r@) == distinct_keys(all_connections(self.slices@).map_values(|c: Connection| endpoint_key(c, from))),
    {
        let ghost f = |c: Connection| endpoint_key(c, from);
        let mut out: Vec<EntityReference> = Vec::new();
        let ns = self.slices.len();
        let mut i: usize = 0;
        assert(Seq::new(0, |q: int| self.slices@[q].1@).flatten() =~= Seq::<Connection>::empty());
        assert(ref_keys(out@) =~= distinct_keys(Seq::<Connection>::empty().map_values(f)));
        while i < ns
            invariant
                ns == self.slices@.len(),
                forall|i: int| 0 <= i < self.slices@.len() ==> (#[trigger] self.slices@[i]).1@.len() <= usize::MAX,
                i <= ns,
                f == (|c: Connection| endpoint_key(c, from)),
                ref_keys(out@) == distinct_keys(Seq::new(i as nat, |q: int| self.slices@[q].1@).flatten().map_values(f)),
            decreases ns - i,
        {
            let ghost done = Seq::new(i as nat, |q: int| self.slices@[q].1@).flatten();
            let conns = self.slices[i].1.iter();
            let nc = conns.len();
            let mut k: usize = 0;
            assert(done + self.slices@[i as int].1@.take(0) =~= done);
            while k < nc
                invariant
                    nc == conns@.len(),
                    conns@.len() == self.slices@[i as int].1@.len(),
                    forall|q: int| 0 <= q < conns@.len() ==> *conns@[q] == self.slices@[i as int].1@[q],
                    i < ns,
                    ns == self.slices@.len(),
                    k <= nc,
                    f == (|c: Connection| endpoint_key(c, from)),
                    ref_keys(out@) == distinct_keys((done + self.slices@[i as int].1@.take(k as int)).map_values(f)),
                decreases nc - k,
            {
                let c = conns[k];
                let r = if from { &c.from } else { &c.to };
                let ghost prefix = done + self.slices@[i as int].1@.take(k as int);
                let ghost next = done + self.slices@[i as int].1@.take(k + 1);
                assert(next =~= prefix.push(*c));
                assert(next.map_values(f).drop_last() =~= prefix.map_values(f));
                assert(next.map_values(f).last() == ref_key(*r));
                if !holds_reference(&out, r) {
                    let ghost before = ref_keys(out@);
                    out.push(copy_reference(r));
                    assert(ref_keys(out@) =~= before.push(ref_key(*r)));
                }
                k += 1;
            }
            proof {
                assert(self.slices@[i as int].1@.take(nc as int) =~= self.slices@[i as int].1@);
                let prev = Seq::new(i as nat, |q: int| self.slices@[q].1@);
                prev.lemma_flatten_push(self.slices@[i as int].1@);
                assert(Seq::new((i + 1) as nat, |q: int| self.slices@[q].1@) =~= prev.push(self.slices@[i as int].1@));
            }
            i += 1;
        }
        out
    }

    /// Finds all entities that are sources in connections.
    pub fn find_source_entities(&self) -> (r: Vec<EntityReference>)
        requires
            forall|i: int| 0 <= i < self.slices@.len() ==> (#[trigger] self.slices@[i]).1@.len() <= usize::MAX,
        ensures
            ref_keys(r@) == distinct_keys(all_connections(self.slices@).map_values(|c: Connection| endpoint_key(c, true))),
    {
        self.endpoint_entities(true)
    }

    /// Finds all entities that are targets in connections.
    pub fn find_target_entities(&self) -> (r: Vec<EntityReference>)
        requires
            forall|i: int| 0 <= i < self.slices@.len() ==> (#[trigger] self.slices@[i]).1@.len() <= usize::MAX,
        ensures
            ref_keys(r@) == distinct_keys(all_connections(self.slices@).map_values(|c: Connection| endpoint_key(c, false))),
    {
        self.endpoint_entities(false)
    }


    /// The connections whose source (`from`) or target is `entity`, slice
    /// by slice.
    fn connections_touching(&self, entity: &EntityReference, from: bool) -> (r: Vec<Connection>)
        requires
            forall|i: int| 0 <= i < self.slices@.len() ==> (#[trigger] self.slices@[i]).1@.len() <= usize::MAX,
        ensures
            conn_keys(r@) == conn_keys(connections_with(all_connections(self.slices@), ref_key(*entity), from)),
    {
        let ghost key = ref_key(*entity);
        let mut out: Vec<Connection> = Vec::new();
        let ns = self.slices.len();
        let mut i: usize = 0;
        assert(Seq::new(0, |q: int| self.slices@[q].1@).flatten() =~= Seq::<Connection>::empty());
        assert(conn_keys(out@) =~= conn_keys(connections_with(Seq::<Connection>::empty(), key, from)));
        while i < ns
            invariant
                ns == self.slices@.len(),
                forall|i: int| 0 <= i < self.slices@.len() ==> (#[trigger] self.slices@[i]).1@.len() <= usize::MAX,
                i <= ns,
                key == ref_key(*entity),
                conn_keys(out@) == conn_keys(connections_with(Seq::new(i as nat, |q: int| self.slices@[q].1@).flatten(), key, from)),
            decreases ns - i,
        {
            let ghost done = Seq::new(i as nat, |q: int| self.slices@[q].1@).flatten();
            let conns = self.slices[i].1.iter();
            let nc = conns.len();
            let mut k: usize = 0;
            assert(done + self.slices@[i as int].1@.take(0) =~= done);
            while k < nc
                invariant
                    nc == conns@.len(),
                    conns@.len() == self.slices@[i as int].1@.len(),
                    forall|q: int| 0 <= q < conns@.len() ==> *conns@[q] == self.slices@[i as int].1@[q],
                    i < ns,
                    ns == self.slices@.len(),
                    k <= nc,
                    key == ref_key(*entity),
                    conn_keys(out@) == conn_keys(connections_with(done + self.slices@[i as int].1@.take(k as int), key, from)),
                decreases nc - k,
            {
                let c = conns[k];
                let ghost prefix = done + self.slices@[i as int].1@.take(k as int);
                let ghost next = done + self.slices@[i as int].1@.take(k + 1);
                assert(next =~= prefix.push(*c));
                assert(next.drop_last() =~= prefix);
                let r = if from { &c.from } else { &c.to };
                if same_reference(r, entity) {
                    let ghost before = conn_keys(out@);
                    out.push(copy_connection(c));
                    assert(conn_keys(out@) =~= before.push(conn_key(*c)));
                    assert(conn_keys(connections_with(next, key, from)) =~= conn_keys(connections_with(prefix, key, from)).push(conn_key(*c)));
                }
                k += 1;
            }
            proof {
                assert(self.slices@[i as int].1@.take(nc as int) =~= self.slices@[i as int].1@);
                let prev = Seq::new(i as nat, |q: int| self.slices@[q].1@);
                prev.lemma_flatten_push(self.slices@[i as int].1@);
                assert(Seq::new((i + 1) as nat, |q: int| self.slices@[q].1@) =~= prev.push(self.slices@[i as int].1@));
            }
            i += 1;
        }
        out
    }

    /// Finds all connections from a specific entity.
    pub fn find_connections_from(&self, entity: &EntityReference) -> (r: Vec<Connection>)
        requires
            forall|i: int| 0 <= i < self.slices@.len() ==> (#[trigger] self.slices@[i]).1@.len() <= usize::MAX,
        ensures
            conn_keys(r@) == conn_keys(connections_with(all_connections(self.slices@), ref_key(*entity), true)),
    {
        self.connections_touching(entity, true)
    }

    /// Finds all connections to a specific entity.
    pub fn find_connections_to(&self, entity: &EntityReference) -> (r: Vec<Connection>)
        requires
            forall|i: int| 0 <= i < self.slices@.len() ==> (#[trigger] self.slices@[i]).1@.len() <= usize::MAX,
        ensures
            conn_keys(r@) == conn_keys(connections_with(all_connections(self.slices@), ref_key(*entity), false)),
    {
        self.connections_touching(entity, false)
    }

    /// Gets all entity names grouped by type.
    pub fn all_entity_names(&self) -> (r: EntityNamesByType)
        ensures
            r.events@.map_values(|n: EventName| n@) == self.events@.map_values(|p: (EventName, _)| p.0@),
            r.commands@.map_values(|n: CommandName| n@) == self.commands@.map_values(|p: (CommandName, _)| p.0@),
            r.views@.map_values(|n: ViewName| n@) == self.views@.map_values(|p: (ViewName, _)| p.0@),
            r.projections@.map_values(|n: ProjectionName| n@) == self.projections@.map_values(|p: (ProjectionName, _)| p.0@),
            r.queries@.map_values(|n: QueryName| n@) == self.queries@.map_values(|p: (QueryName, _)| p.0@),
            r.automations@.map_values(|n: AutomationName| n@) == self.automations@.map_values(|p: (AutomationName, _)| p.0@),
    {
        EntityNamesByType {
            events: self.events_names(),
            commands: self.commands_names(),
            views: self.views_names(),
            projections: self.projections_names(),
            queries: self.queries_names(),
            automations: self.automations_names(),
        }
    }

    /// The errors of one connection of slice `slice`: its source, then its
    /// target, when the registry lacks them.
    pub open spec fn connection_errors(&self, slice: Seq<char>, c: Connection) -> Seq<ErrorView> {
        (if !self.defines(c.from) {
            seq![(true, slice, ref_key(c.from), missing_message(c.from))]
        } else {
            Seq::empty()
        }) + (if !self.defines(c.to) {
            seq![(false, slice, ref_key(c.to), missing_message(c.to))]
        } else {
            Seq::empty()
        })
    }

    /// The errors of slice `i`'s connections, in order.
    pub open spec fn slice_errors(&self, i: int) -> Seq<ErrorView> {
        let (name, conns) = self.slices@[i];
        Seq::new(conns@.len(), |k: int| self.connection_errors(name@, conns@[k])).flatten()
    }

    /// The errors of all connections, slice by slice.
    pub open spec fn connection_error_list(&self) -> Seq<ErrorView> {
        Seq::new(self.slices@.len(), |i: int| self.slice_errors(i)).flatten()
    }

    /// Appends the error for `r` of a connection in slice `slice`, if the
    /// registry lacks it.
    fn check_reference(&self, slice: &SliceName, r: &EntityReference, source: bool, errors: &mut Vec<ValidationError>)
        ensures
            error_views(final(errors)@) == error_views(old(errors)@) + (if !self.defines(*r) {
                seq![(source, slice@, ref_key(*r), missing_message(*r))]
            } else {
                Seq::empty()
            }),
    {
        let ghost before = error_views(errors@);
        match self.validate_entity_reference(r) {
            Ok(_) => {
                assert(error_views(errors@) =~= before + Seq::<ErrorView>::empty());
            },
            Err(reason) => {
                let e = if source {
                    ValidationError::InvalidSource { slice: slice.clone(), reference: copy_reference(r), reason }
                } else {
                    ValidationError::InvalidTarget { slice: slice.clone(), reference: copy_reference(r), reason }
                };
                errors.push(e);
                assert(error_views(errors@) =~= before + seq![(source, slice@, ref_key(*r), missing_message(*r))]);
            },
        }
    }

    /// Validates that all entity references in connections exist: `Ok`
    /// when they all do, else every failing source and target, slice by
    /// slice and connection by connection.
    pub fn validate_connections(&self) -> (r: Result<(), Vec<ValidationError>>)
        requires
            forall|i: int| 0 <= i < self.slices@.len() ==> (#[trigger] self.slices@[i]).1@.len() <= usize::MAX,
        ensures
            match r {
                Ok(_) => self.connection_error_list().len() == 0,
                Err(v) => self.connection_error_list().len() > 0 && error_views(v@) == self.connection_error_list(),
            },
    {
        let mut errors: Vec<ValidationError> = Vec::new();
        let ns = self.slices.len();
        let mut i: usize = 0;
        assert(error_views(errors@) =~= Seq::new(0, |q: int| self.slice_errors(q)).flatten());
        while i < ns
            invariant
                ns == self.slices@.len(),
                forall|i: int| 0 <= i < self.slices@.len() ==> (#[trigger] self.slices@[i]).1@.len() <= usize::MAX,
                i <= ns,
                error_views(errors@) == Seq::new(i as nat, |q: int| self.slice_errors(q)).flatten(),
            decreases ns - i,
        {
            let ghost base = error_views(errors@);
            let name = &self.slices[i].0;
            let conns = self.slices[i].1.iter();
            let nc = conns.len();
            let ghost cs = self.slices@[i as int].1@;
            let mut k: usize = 0;
            assert(base + Seq::new(0, |q: int| self.connection_errors(name@, cs[q])).flatten() =~= base);
            while k < nc
                invariant
                    nc == conns@.len(),
                    cs == self.slices@[i as int].1@,
                    conns@.len() == cs.len(),
                    forall|q: int| 0 <= q < conns@.len() ==> *conns@[q] == cs[q],
                    i < ns,
                    ns == self.slices@.len(),
                    *name == self.slices@[i as int].0,
                    k <= nc,
                    error_views(errors@) == base + Seq::new(k as nat, |q: int| self.connection_errors(name@, cs[q])).flatten(),
                decreases nc - k,
            {
                let c = conns[k];
                let ghost before = error_views(errors@);
                self.check_reference(name, &c.from, true, &mut errors);
                self.check_reference(name, &c.to, false, &mut errors);
                proof {
                    let piece = self.connection_errors(name@, cs[k as int]);
                    assert(error_views(errors@) =~= before + piece);
                    let prev = Seq::new(k as nat, |q: int| self.connection_errors(name@, cs[q]));
                    prev.lemma_flatten_push(piece);
                    assert(Seq::new((k + 1) as nat, |q: int| self.connection_errors(name@, cs[q])) =~= prev.push(piece));
                    assert(before + piece =~= base + (prev.flatten() + piece));
                }
                k += 1;
            }
            proof {
                let piece = self.slice_errors(i as int);
                assert(piece == Seq::new(nc as nat, |q: int| self.connection_errors(name@, cs[q])).flatten());
                let prev = Seq::new(i as nat, |q: int| self.slice_errors(q));
                prev.lemma_flatten_push(piece);
                assert(Seq::new((i + 1) as nat, |q: int| self.slice_errors(q)) =~= prev.push(piece));
            }
            i += 1;
        }
        if errors.len() == 0 {
            Ok(())
        } else {
            Err(errors)
        }
    }
}

/// A flattened sequence is empty exactly when each part is.
pub proof fn lemma_flatten_empty<A>(s: Seq<Seq<A>>)
    ensures
        s.flatten().len() == 0 <==> forall|i: int| 0 <= i < s.len() ==> (#[trigger] s[i]).len() == 0,
    decreases s.len(),
{
    if s.len() > 0 {
        lemma_flatten_empty(s.drop_first());
        assert forall|i: int| 0 <= i < s.len() && s.flatten().len() == 0 implies (#[trigger] s[i]).len() == 0 by {
            if i > 0 {
                assert(s[i] == s.drop_first()[i - 1]);
            }
        }
        if forall|i: int| 0 <= i < s.len() ==> (#[trigger] s[i]).len() == 0 {
            assert forall|i: int| 0 <= i < s.drop_first().len() implies (#[trigger] s.drop_first()[i]).len() == 0 by {
                assert(s.drop_first()[i] == s[i + 1]);
            }
        }
    }
}

/// Whether every connection of slice `i` has its source and target in the
/// registry.
pub open spec fn slice_defined(reg: YamlEntityRegistry, i: int) -> bool {
    forall|k: int| 0 <= k < reg.slices@[i].1@.len() ==> reg.defines(#[trigger] reg.slices@[i].1@[k].from) && reg.defines(
        reg.slices@[i].1@[k].to,
    )
}

/// Validation finds no error exactly when every connection's source and
/// target are entities of the registry.
pub proof fn lemma_valid_iff_all_defined(reg: YamlEntityRegistry)
    ensures
        reg.connection_error_list().len() == 0 <==> forall|i: int| 0 <= i < reg.slices@.len() ==> #[trigger] slice_defined(reg, i),
{
    let outer = Seq::new(reg.slices@.len(), |i: int| reg.slice_errors(i));
    lemma_flatten_empty(outer);
    assert forall|i: int| 0 <= i < reg.slices@.len() implies ((#[trigger] outer[i]).len() == 0 <==> slice_defined(reg, i)) by {
        let (name, conns) = reg.slices@[i];
        let inner = Seq::new(conns@.len(), |k: int| reg.connection_errors(name@, conns@[k]));
        lemma_flatten_empty(inner);
        assert(outer[i] == inner.flatten());
        assert forall|k: int| 0 <= k < conns@.len() implies ((#[trigger] inner[k]).len() == 0 <==> reg.defines(conns@[k].from) && reg.defines(conns@[k].to)) by {}
        if outer[i].len() == 0 {
            assert forall|k: int| 0 <= k < reg.slices@[i].1@.len() implies reg.defines(#[trigger] reg.slices@[i].1@[k].from) && reg.defines(reg.slices@[i].1@[k].to) by {
                assert(inner[k].len() == 0);
            }
        }
        if slice_defined(reg, i) {
            assert forall|k: int| 0 <= k < inner.len() implies (#[trigger] inner[k]).len() == 0 by {
                assert(reg.defines(reg.slices@[i].1@[k].from));
            }
        }
    }
    assert(reg.connection_error_list() == outer.flatten());
    if reg.connection_error_list().len() == 0 {
        assert forall|i: int| 0 <= i < reg.slices@.len() implies #[trigger] slice_defined(reg, i) by {
            assert(outer[i].len() == 0);
        }
    }
    if forall|i: int| 0 <= i < reg.slices@.len() ==> #[trigger] slice_defined(reg, i) {
        assert forall|i: int| 0 <= i < outer.len() implies (#[trigger] outer[i]).len() == 0 by {
            assert(slice_defined(reg, i));
        }
    }
}

} // verus!
