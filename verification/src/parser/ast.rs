//! The syntax tree of the Event Model language: validated names, values
//! and the structure of a parsed model.
use crate::infrastructure::types::ModelValueError;
use vstd::prelude::*;

verus! {
#[derive(Debug, Clone)]
pub struct EventModel {
    pub metadata: ModelMetadata,
    pub swimlanes: Vec<Swimlane>,
    pub slices: Vec<Slice>,
}

#[derive(Debug, Clone)]
pub struct ModelMetadata {
    pub title: Option<ModelTitle>,
    pub description: Option<ModelDescription>,
}

/// ModelTitle
#[derive(Debug, PartialEq, Eq, Hash)]
pub struct ModelTitle(String);

impl View for ModelTitle {
    type V = Seq<char>;

    closed spec fn view(&self) -> Seq<char> {
        self.0@
    }
}

impl Clone for ModelTitle {
    fn clone(&self) -> (r: Self)
        ensures
            r@ == self@,
    {
        proof {
            use_type_invariant(self);
        }
        ModelTitle(self.0.clone())
    }
}

impl ModelTitle {
    #[verifier::type_invariant]
    spec fn inv(self) -> bool {
        self.0@.len() > 0
    }

    /// Accepts `value` exactly when it is not empty.
    pub fn try_new(value: String) -> (r: Result<Self, ModelValueError>)
        ensures
            value@.len() > 0 <==> r is Ok,
            r matches Ok(v) ==> v@ == value@,
            r matches Err(e) ==> e == ModelValueError::Empty,
    {
        if value.as_str().unicode_len() > 0 {
            Ok(ModelTitle(value))
        } else {
            Err(ModelValueError::Empty)
        }
    }

    /// The wrapped text.
    pub fn into_inner(self) -> (r: String)
        ensures
            r@ == self@,
            r@.len() > 0,
    {
        proof {
            use_type_invariant(&self);
        }
        self.0
    }
}


/// ModelDescription
#[derive(Debug, PartialEq, Eq, Hash)]
pub struct ModelDescription(String);

impl View for ModelDescription {
    type V = Seq<char>;

    closed spec fn view(&self) -> Seq<char> {
        self.0@
    }
}

impl Clone for ModelDescription {
    fn clone(&self) -> (r: Self)
        ensures
            r@ == self@,
    {
        proof {
            use_type_invariant(self);
        }
        ModelDescription(self.0.clone())
    }
}

impl ModelDescription {
    #[verifier::type_invariant]
    spec fn inv(self) -> bool {
        self.0@.len() > 0
    }

    /// Accepts `value` exactly when it is not empty.
    pub fn try_new(value: String) -> (r: Result<Self, ModelValueError>)
        ensures
            value@.len() > 0 <==> r is Ok,
            r matches Ok(v) ==> v@ == value@,
            r matches Err(e) ==> e == ModelValueError::Empty,
    {
        if value.as_str().unicode_len() > 0 {
            Ok(ModelDescription(value))
        } else {
            Err(ModelValueError::Empty)
        }
    }

    /// The wrapped text.
    pub fn into_inner(self) -> (r: String)
        ensures
            r@ == self@,
            r@.len() > 0,
    {
        proof {
            use_type_invariant(&self);
        }
        self.0
    }
}


#[derive(Debug, Clone)]
pub struct Swimlane {
    pub name: SwimlaneName,
    pub entities: Vec<Entity>,
}

/// SwimlaneName
#[derive(Debug, PartialEq, Eq, Hash)]
pub struct SwimlaneName(String);

impl View for SwimlaneName {
    type V = Seq<char>;

    closed spec fn view(&self) -> Seq<char> {
        self.0@
    }
}

impl Clone for SwimlaneName {
    fn clone(&self) -> (r: Self)
        ensures
            r@ == self@,
    {
        proof {
            use_type_invariant(self);
        }
        SwimlaneName(self.0.clone())
    }
}

impl SwimlaneName {
    #[verifier::type_invariant]
    spec fn inv(self) -> bool {
        self.0@.len() > 0
    }

    /// Accepts `value` exactly when it is not empty.
    pub fn try_new(value: String) -> (r: Result<Self, ModelValueError>)
        ensures
            value@.len() > 0 <==> r is Ok,
            r matches Ok(v) ==> v@ == value@,
            r matches Err(e) ==> e == ModelValueError::Empty,
    {
        if value.as_str().unicode_len() > 0 {
            Ok(SwimlaneName(value))
        } else {
            Err(ModelValueError::Empty)
        }
    }

    /// The wrapped text.
    pub fn into_inner(self) -> (r: String)
        ensures
            r@ == self@,
            r@.len() > 0,
    {
        proof {
            use_type_invariant(&self);
        }
        self.0
    }
}


#[derive(Debug, Clone)]
pub enum Entity {
    Wireframe(Wireframe),
    Command(Command),
    Event(Event),
    Projection(Projection),
    Query(Query),
    Automation(Automation),
}

#[derive(Debug, Clone)]
pub struct Wireframe {
    pub name: EntityName,
    pub inputs: Vec<InputField>,
    pub outputs: Vec<OutputField>,
    pub link: Option<DocumentationLink>,
}

#[derive(Debug, Clone)]
pub struct Command {
    pub name: EntityName,
    pub actor: Option<ActorName>,
    pub payload: Vec<PayloadField>,
    pub link: Option<DocumentationLink>,
}

#[derive(Debug, Clone)]
pub struct Event {
    pub name: EntityName,
    pub timestamp: Timestamp,
    pub data: Vec<DataField>,
    pub link: Option<DocumentationLink>,
}

#[derive(Debug, Clone)]
pub struct Projection {
    pub name: EntityName,
    pub sources: Vec<EventReference>,
    pub fields: Vec<ProjectionField>,
    pub link: Option<DocumentationLink>,
}

#[derive(Debug, Clone)]
pub struct Query {
    pub name: EntityName,
    pub projection: ProjectionReference,
    pub parameters: Vec<QueryParameter>,
    pub link: Option<DocumentationLink>,
}

#[derive(Debug, Clone)]
pub struct Automation {
    pub name: EntityName,
    pub trigger: EventReference,
    pub action: CommandReference,
    pub link: Option<DocumentationLink>,
}

#[derive(Debug, Clone)]
pub struct Slice {
    pub name: SliceName,
    pub contains: Vec<EntityReference>,
    pub given_when_then: Option<GivenWhenThen>,
}

#[derive(Debug, Clone)]
pub struct GivenWhenThen {
    pub given: ScenarioGiven,
    pub when: ScenarioWhen,
    pub then: Vec<ScenarioThen>,
}

/// EntityName
#[derive(Debug, PartialEq, Eq, Hash)]
pub struct EntityName(String);

impl View for EntityName {
    type V = Seq<char>;

    closed spec fn view(&self) -> Seq<char> {
        self.0@
    }
}

impl Clone for EntityName {
    fn clone(&self) -> (r: Self)
        ensures
            r@ == self@,
    {
        proof {
            use_type_invariant(self);
        }
        EntityName(self.0.clone())
    }
}

impl EntityName {
    #[verifier::type_invariant]
    spec fn inv(self) -> bool {
        self.0@.len() > 0
    }

    /// Accepts `value` exactly when it is not empty.
    pub fn try_new(value: String) -> (r: Result<Self, ModelValueError>)
        ensures
            value@.len() > 0 <==> r is Ok,
            r matches Ok(v) ==> v@ == value@,
            r matches Err(e) ==> e == ModelValueError::Empty,
    {
        if value.as_str().unicode_len() > 0 {
            Ok(EntityName(value))
        } else {
            Err(ModelValueError::Empty)
        }
    }

    /// The wrapped text.
    pub fn into_inner(self) -> (r: String)
        ensures
            r@ == self@,
            r@.len() > 0,
    {
        proof {
            use_type_invariant(&self);
        }
        self.0
    }
}


/// ActorName
#[derive(Debug, PartialEq, Eq, Hash)]
pub struct ActorName(String);

impl View for ActorName {
    type V = Seq<char>;

    closed spec fn view(&self) -> Seq<char> {
        self.0@
    }
}

impl Clone for ActorName {
    fn clone(&self) -> (r: Self)
        ensures
            r@ == self@,
    {
        proof {
            use_type_invariant(self);
        }
        ActorName(self.0.clone())
    }
}

impl ActorName {
    #[verifier::type_invariant]
    spec fn inv(self) -> bool {
        self.0@.len() > 0
    }

    /// Accepts `value` exactly when it is not empty.
    pub fn try_new(value: String) -> (r: Result<Self, ModelValueError>)
        ensures
            value@.len() > 0 <==> r is Ok,
            r matches Ok(v) ==> v@ == value@,
            r matches Err(e) ==> e == ModelValueError::Empty,
    {
        if value.as_str().unicode_len() > 0 {
            Ok(ActorName(value))
        } else {
            Err(ModelValueError::Empty)
        }
    }

    /// The wrapped text.
    pub fn into_inner(self) -> (r: String)
        ensures
            r@ == self@,
            r@.len() > 0,
    {
        proof {
            use_type_invariant(&self);
        }
        self.0
    }
}


/// InputField
#[derive(Debug, PartialEq, Eq, Hash)]
pub struct InputField(String);

impl View for InputField {
    type V = Seq<char>;

    closed spec fn view(&self) -> Seq<char> {
        self.0@
    }
}

impl Clone for InputField {
    fn clone(&self) -> (r: Self)
        ensures
            r@ == self@,
    {
        proof {
            use_type_invariant(self);
        }
        InputField(self.0.clone())
    }
}

impl InputField {
    #[verifier::type_invariant]
    spec fn inv(self) -> bool {
        self.0@.len() > 0
    }

    /// Accepts `value` exactly when it is not empty.
    pub fn try_new(value: String) -> (r: Result<Self, ModelValueError>)
        ensures
            value@.len() > 0 <==> r is Ok,
            r matches Ok(v) ==> v@ == value@,
            r matches Err(e) ==> e == ModelValueError::Empty,
    {
        if value.as_str().unicode_len() > 0 {
            Ok(InputField(value))
        } else {
            Err(ModelValueError::Empty)
        }
    }

    /// The wrapped text.
    pub fn into_inner(self) -> (r: String)
        ensures
            r@ == self@,
            r@.len() > 0,
    {
        proof {
            use_type_invariant(&self);
        }
        self.0
    }
}


/// OutputField
#[derive(Debug, PartialEq, Eq, Hash)]
pub struct OutputField(String);

impl View for OutputField {
    type V = Seq<char>;

    closed spec fn view(&self) -> Seq<char> {
        self.0@
    }
}

impl Clone for OutputField {
    fn clone(&self) -> (r: Self)
        ensures
            r@ == self@,
    {
        proof {
            use_type_invariant(self);
        }
        OutputField(self.0.clone())
    }
}

impl OutputField {
    #[verifier::type_invariant]
    spec fn inv(self) -> bool {
        self.0@.len() > 0
    }

    /// Accepts `value` exactly when it is not empty.
    pub fn try_new(value: String) -> (r: Result<Self, ModelValueError>)
        ensures
            value@.len() > 0 <==> r is Ok,
            r matches Ok(v) ==> v@ == value@,
            r matches Err(e) ==> e == ModelValueError::Empty,
    {
        if value.as_str().unicode_len() > 0 {
            Ok(OutputField(value))
        } else {
            Err(ModelValueError::Empty)
        }
    }

    /// The wrapped text.
    pub fn into_inner(self) -> (r: String)
        ensures
            r@ == self@,
            r@.len() > 0,
    {
        proof {
            use_type_invariant(&self);
        }
        self.0
    }
}


/// PayloadField
#[derive(Debug, PartialEq, Eq, Hash)]
pub struct PayloadField(String);

impl View for PayloadField {
    type V = Seq<char>;

    closed spec fn view(&self) -> Seq<char> {
        self.0@
    }
}

impl Clone for PayloadField {
    fn clone(&self) -> (r: Self)
        ensures
            r@ == self@,
    {
        proof {
            use_type_invariant(self);
        }
        PayloadField(self.0.clone())
    }
}

impl PayloadField {
    #[verifier::type_invariant]
    spec fn inv(self) -> bool {
        self.0@.len() > 0
    }

    /// Accepts `value` exactly when it is not empty.
    pub fn try_new(value: String) -> (r: Result<Self, ModelValueError>)
        ensures
            value@.len() > 0 <==> r is Ok,
            r matches Ok(v) ==> v@ == value@,
            r matches Err(e) ==> e == ModelValueError::Empty,
    {
        if value.as_str().unicode_len() > 0 {
            Ok(PayloadField(value))
        } else {
            Err(ModelValueError::Empty)
        }
    }

    /// The wrapped text.
    pub fn into_inner(self) -> (r: String)
        ensures
            r@ == self@,
            r@.len() > 0,
    {
        proof {
            use_type_invariant(&self);
        }
        self.0
    }
}


/// DataField
#[derive(Debug, PartialEq, Eq, Hash)]
pub struct DataField(String);

impl View for DataField {
    type V = Seq<char>;

    closed spec fn view(&self) -> Seq<char> {
        self.0@
    }
}

impl Clone for DataField {
    fn clone(&self) -> (r: Self)
        ensures
            r@ == self@,
    {
        proof {
            use_type_invariant(self);
        }
        DataField(self.0.clone())
    }
}

impl DataField {
    #[verifier::type_invariant]
    spec fn inv(self) -> bool {
        self.0@.len() > 0
    }

    /// Accepts `value` exactly when it is not empty.
    pub fn try_new(value: String) -> (r: Result<Self, ModelValueError>)
        ensures
            value@.len() > 0 <==> r is Ok,
            r matches Ok(v) ==> v@ == value@,
            r matches Err(e) ==> e == ModelValueError::Empty,
    {
        if value.as_str().unicode_len() > 0 {
            Ok(DataField(value))
        } else {
            Err(ModelValueError::Empty)
        }
    }

    /// The wrapped text.
    pub fn into_inner(self) -> (r: String)
        ensures
            r@ == self@,
            r@.len() > 0,
    {
        proof {
            use_type_invariant(&self);
        }
        self.0
    }
}


/// ProjectionField
#[derive(Debug, PartialEq, Eq, Hash)]
pub struct ProjectionField(String);

impl View for ProjectionField {
    type V = Seq<char>;

    closed spec fn view(&self) -> Seq<char> {
        self.0@
    }
}

impl Clone for ProjectionField {
    fn clone(&self) -> (r: Self)
        ensures
            r@ == self@,
    {
        proof {
            use_type_invariant(self);
        }
        ProjectionField(self.0.clone())
    }
}

impl ProjectionField {
    #[verifier::type_invariant]
    spec fn inv(self) -> bool {
        self.0@.len() > 0
    }

    /// Accepts `value` exactly when it is not empty.
    pub fn try_new(value: String) -> (r: Result<Self, ModelValueError>)
        ensures
            value@.len() > 0 <==> r is Ok,
            r matches Ok(v) ==> v@ == value@,
            r matches Err(e) ==> e == ModelValueError::Empty,
    {
        if value.as_str().unicode_len() > 0 {
            Ok(ProjectionField(value))
        } else {
            Err(ModelValueError::Empty)
        }
    }

    /// The wrapped text.
    pub fn into_inner(self) -> (r: String)
        ensures
            r@ == self@,
            r@.len() > 0,
    {
        proof {
            use_type_invariant(&self);
        }
        self.0
    }
}


/// QueryParameter
#[derive(Debug, PartialEq, Eq, Hash)]
pub struct QueryParameter(String);

impl View for QueryParameter {
    type V = Seq<char>;

    closed spec fn view(&self) -> Seq<char> {
        self.0@
    }
}

impl Clone for QueryParameter {
    fn clone(&self) -> (r: Self)
        ensures
            r@ == self@,
    {
        proof {
            use_type_invariant(self);
        }
        QueryParameter(self.0.clone())
    }
}

impl QueryParameter {
    #[verifier::type_invariant]
    spec fn inv(self) -> bool {
        self.0@.len() > 0
    }

    /// Accepts `value` exactly when it is not empty.
    pub fn try_new(value: String) -> (r: Result<Self, ModelValueError>)
        ensures
            value@.len() > 0 <==> r is Ok,
            r matches Ok(v) ==> v@ == value@,
            r matches Err(e) ==> e == ModelValueError::Empty,
    {
        if value.as_str().unicode_len() > 0 {
            Ok(QueryParameter(value))
        } else {
            Err(ModelValueError::Empty)
        }
    }

    /// The wrapped text.
    pub fn into_inner(self) -> (r: String)
        ensures
            r@ == self@,
            r@.len() > 0,
    {
        proof {
            use_type_invariant(&self);
        }
        self.0
    }
}


/// Timestamp
#[derive(Debug, Clone, Copy, PartialEq, Eq, Structural, PartialOrd, Ord)]
pub struct Timestamp(u32);

impl View for Timestamp {
    type V = u32;

    closed spec fn view(&self) -> u32 {
        self.0
    }
}

impl Timestamp {
    /// Every value is accepted.
    pub fn try_new(value: u32) -> (r: Result<Self, ModelValueError>)
        ensures
            r matches Ok(v) && v@ == value,
    {
        Ok(Timestamp(value))
    }

    /// The wrapped value.
    pub fn into_inner(self) -> (r: u32)
        ensures
            r == self@,
    {
        self.0
    }
}


/// EventReference
#[derive(Debug, PartialEq, Eq, Hash)]
pub struct EventReference(String);

impl View for EventReference {
    type V = Seq<char>;

    closed spec fn view(&self) -> Seq<char> {
        self.0@
    }
}

impl Clone for EventReference {
    fn clone(&self) -> (r: Self)
        ensures
            r@ == self@,
    {
        proof {
            use_type_invariant(self);
        }
        EventReference(self.0.clone())
    }
}

impl EventReference {
    #[verifier::type_invariant]
    spec fn inv(self) -> bool {
        self.0@.len() > 0
    }

    /// Accepts `value` exactly when it is not empty.
    pub fn try_new(value: String) -> (r: Result<Self, ModelValueError>)
        ensures
            value@.len() > 0 <==> r is Ok,
            r matches Ok(v) ==> v@ == value@,
            r matches Err(e) ==> e == ModelValueError::Empty,
    {
        if value.as_str().unicode_len() > 0 {
            Ok(EventReference(value))
        } else {
            Err(ModelValueError::Empty)
        }
    }

    /// The wrapped text.
    pub fn into_inner(self) -> (r: String)
        ensures
            r@ == self@,
            r@.len() > 0,
    {
        proof {
            use_type_invariant(&self);
        }
        self.0
    }
}


/// ProjectionReference
#[derive(Debug, PartialEq, Eq, Hash)]
pub struct ProjectionReference(String);

impl View for ProjectionReference {
    type V = Seq<char>;

    closed spec fn view(&self) -> Seq<char> {
        self.0@
    }
}

impl Clone for ProjectionReference {
    fn clone(&self) -> (r: Self)
        ensures
            r@ == self@,
    {
        proof {
            use_type_invariant(self);
        }
        ProjectionReference(self.0.clone())
    }
}

impl ProjectionReference {
    #[verifier::type_invariant]
    spec fn inv(self) -> bool {
        self.0@.len() > 0
    }

    /// Accepts `value` exactly when it is not empty.
    pub fn try_new(value: String) -> (r: Result<Self, ModelValueError>)
        ensures
            value@.len() > 0 <==> r is Ok,
            r matches Ok(v) ==> v@ == value@,
            r matches Err(e) ==> e == ModelValueError::Empty,
    {
        if value.as_str().unicode_len() > 0 {
            Ok(ProjectionReference(value))
        } else {
            Err(ModelValueError::Empty)
        }
    }

    /// The wrapped text.
    pub fn into_inner(self) -> (r: String)
        ensures
            r@ == self@,
            r@.len() > 0,
    {
        proof {
            use_type_invariant(&self);
        }
        self.0
    }
}


/// CommandReference
#[derive(Debug, PartialEq, Eq, Hash)]
pub struct CommandReference(String);

impl View for CommandReference {
    type V = Seq<char>;

    closed spec fn view(&self) -> Seq<char> {
        self.0@
    }
}

impl Clone for CommandReference {
    fn clone(&self) -> (r: Self)
        ensures
            r@ == self@,
    {
        proof {
            use_type_invariant(self);
        }
        CommandReference(self.0.clone())
    }
}

impl CommandReference {
    #[verifier::type_invariant]
    spec fn inv(self) -> bool {
        self.0@.len() > 0
    }

    /// Accepts `value` exactly when it is not empty.
    pub fn try_new(value: String) -> (r: Result<Self, ModelValueError>)
        ensures
            value@.len() > 0 <==> r is Ok,
            r matches Ok(v) ==> v@ == value@,
            r matches Err(e) ==> e == ModelValueError::Empty,
    {
        if value.as_str().unicode_len() > 0 {
            Ok(CommandReference(value))
        } else {
            Err(ModelValueError::Empty)
        }
    }

    /// The wrapped text.
    pub fn into_inner(self) -> (r: String)
        ensures
            r@ == self@,
            r@.len() > 0,
    {
        proof {
            use_type_invariant(&self);
        }
        self.0
    }
}


/// EntityReference
#[derive(Debug, PartialEq, Eq, Hash)]
pub struct EntityReference(String);

impl View for EntityReference {
    type V = Seq<char>;

    closed spec fn view(&self) -> Seq<char> {
        self.0@
    }
}

impl Clone for EntityReference {
    fn clone(&self) -> (r: Self)
        ensures
            r@ == self@,
    {
        proof {
            use_type_invariant(self);
        }
        EntityReference(self.0.clone())
    }
}

impl EntityReference {
    #[verifier::type_invariant]
    spec fn inv(self) -> bool {
        self.0@.len() > 0
    }

    /// Accepts `value` exactly when it is not empty.
    pub fn try_new(value: String) -> (r: Result<Self, ModelValueError>)
        ensures
            value@.len() > 0 <==> r is Ok,
            r matches Ok(v) ==> v@ == value@,
            r matches Err(e) ==> e == ModelValueError::Empty,
    {
        if value.as_str().unicode_len() > 0 {
            Ok(EntityReference(value))
        } else {
            Err(ModelValueError::Empty)
        }
    }

    /// The wrapped text.
    pub fn into_inner(self) -> (r: String)
        ensures
            r@ == self@,
            r@.len() > 0,
    {
        proof {
            use_type_invariant(&self);
        }
        self.0
    }
}


/// SliceName
#[derive(Debug, PartialEq, Eq, Hash)]
pub struct SliceName(String);

impl View for SliceName {
    type V = Seq<char>;

    closed spec fn view(&self) -> Seq<char> {
        self.0@
    }
}

impl Clone for SliceName {
    fn clone(&self) -> (r: Self)
        ensures
            r@ == self@,
    {
        proof {
            use_type_invariant(self);
        }
        SliceName(self.0.clone())
    }
}

impl SliceName {
    #[verifier::type_invariant]
    spec fn inv(self) -> bool {
        self.0@.len() > 0
    }

    /// Accepts `value` exactly when it is not empty.
    pub fn try_new(value: String) -> (r: Result<Self, ModelValueError>)
        ensures
            value@.len() > 0 <==> r is Ok,
            r matches Ok(v) ==> v@ == value@,
            r matches Err(e) ==> e == ModelValueError::Empty,
    {
        if value.as_str().unicode_len() > 0 {
            Ok(SliceName(value))
        } else {
            Err(ModelValueError::Empty)
        }
    }

    /// The wrapped text.
    pub fn into_inner(self) -> (r: String)
        ensures
            r@ == self@,
            r@.len() > 0,
    {
        proof {
            use_type_invariant(&self);
        }
        self.0
    }
}


/// ScenarioGiven
#[derive(Debug, PartialEq, Eq, Hash)]
pub struct ScenarioGiven(String);

impl View for ScenarioGiven {
    type V = Seq<char>;

    closed spec fn view(&self) -> Seq<char> {
        self.0@
    }
}

impl Clone for ScenarioGiven {
    fn clone(&self) -> (r: Self)
        ensures
            r@ == self@,
    {
        proof {
            use_type_invariant(self);
        }
        ScenarioGiven(self.0.clone())
    }
}

impl ScenarioGiven {
    #[verifier::type_invariant]
    spec fn inv(self) -> bool {
        self.0@.len() > 0
    }

    /// Accepts `value` exactly when it is not empty.
    pub fn try_new(value: String) -> (r: Result<Self, ModelValueError>)
        ensures
            value@.len() > 0 <==> r is Ok,
            r matches Ok(v) ==> v@ == value@,
            r matches Err(e) ==> e == ModelValueError::Empty,
    {
        if value.as_str().unicode_len() > 0 {
            Ok(ScenarioGiven(value))
        } else {
            Err(ModelValueError::Empty)
        }
    }

    /// The wrapped text.
    pub fn into_inner(self) -> (r: String)
        ensures
            r@ == self@,
            r@.len() > 0,
    {
        proof {
            use_type_invariant(&self);
        }
        self.0
    }
}


/// ScenarioWhen
#[derive(Debug, PartialEq, Eq, Hash)]
pub struct ScenarioWhen(String);

impl View for ScenarioWhen {
    type V = Seq<char>;

    closed spec fn view(&self) -> Seq<char> {
        self.0@
    }
}

impl Clone for ScenarioWhen {
    fn clone(&self) -> (r: Self)
        ensures
            r@ == self@,
    {
        proof {
            use_type_invariant(self);
        }
        ScenarioWhen(self.0.clone())
    }
}

impl ScenarioWhen {
    #[verifier::type_invariant]
    spec fn inv(self) -> bool {
        self.0@.len() > 0
    }

    /// Accepts `value` exactly when it is not empty.
    pub fn try_new(value: String) -> (r: Result<Self, ModelValueError>)
        ensures
            value@.len() > 0 <==> r is Ok,
            r matches Ok(v) ==> v@ == value@,
            r matches Err(e) ==> e == ModelValueError::Empty,
    {
        if value.as_str().unicode_len() > 0 {
            Ok(ScenarioWhen(value))
        } else {
            Err(ModelValueError::Empty)
        }
    }

    /// The wrapped text.
    pub fn into_inner(self) -> (r: String)
        ensures
            r@ == self@,
            r@.len() > 0,
    {
        proof {
            use_type_invariant(&self);
        }
        self.0
    }
}


/// ScenarioThen
#[derive(Debug, PartialEq, Eq, Hash)]
pub struct ScenarioThen(String);

impl View for ScenarioThen {
    type V = Seq<char>;

    closed spec fn view(&self) -> Seq<char> {
        self.0@
    }
}

impl Clone for ScenarioThen {
    fn clone(&self) -> (r: Self)
        ensures
            r@ == self@,
    {
        proof {
            use_type_invariant(self);
        }
        ScenarioThen(self.0.clone())
    }
}

impl ScenarioThen {
    #[verifier::type_invariant]
    spec fn inv(self) -> bool {
        self.0@.len() > 0
    }

    /// Accepts `value` exactly when it is not empty.
    pub fn try_new(value: String) -> (r: Result<Self, ModelValueError>)
        ensures
            value@.len() > 0 <==> r is Ok,
            r matches Ok(v) ==> v@ == value@,
            r matches Err(e) ==> e == ModelValueError::Empty,
    {
        if value.as_str().unicode_len() > 0 {
            Ok(ScenarioThen(value))
        } else {
            Err(ModelValueError::Empty)
        }
    }

    /// The wrapped text.
    pub fn into_inner(self) -> (r: String)
        ensures
            r@ == self@,
            r@.len() > 0,
    {
        proof {
            use_type_invariant(&self);
        }
        self.0
    }
}


/// DocumentationLink
#[derive(Debug, PartialEq, Eq, Hash)]
pub struct DocumentationLink(String);

impl View for DocumentationLink {
    type V = Seq<char>;

    closed spec fn view(&self) -> Seq<char> {
        self.0@
    }
}

impl Clone for DocumentationLink {
    fn clone(&self) -> (r: Self)
        ensures
            r@ == self@,
    {
        proof {
            use_type_invariant(self);
        }
        DocumentationLink(self.0.clone())
    }
}

impl DocumentationLink {
    #[verifier::type_invariant]
    spec fn inv(self) -> bool {
        self.0@.len() > 0
    }

    /// Accepts `value` exactly when it is not empty.
    pub fn try_new(value: String) -> (r: Result<Self, ModelValueError>)
        ensures
            value@.len() > 0 <==> r is Ok,
            r matches Ok(v) ==> v@ == value@,
            r matches Err(e) ==> e == ModelValueError::Empty,
    {
        if value.as_str().unicode_len() > 0 {
            Ok(DocumentationLink(value))
        } else {
            Err(ModelValueError::Empty)
        }
    }

    /// The wrapped text.
    pub fn into_inner(self) -> (r: String)
        ensures
            r@ == self@,
            r@.len() > 0,
    {
        proof {
            use_type_invariant(&self);
        }
        self.0
    }
}

} // verus!
