//! The entities of an Event Model with their validated names, identifiers,
//! fields and documentation links.
use crate::infrastructure::text::{extension_of, path_extension, str_equal};
use crate::infrastructure::types::{is_ascii_alpha, is_ascii_upper, ModelValueError};
use vstd::prelude::*;

verus! {
#[derive(Debug, Clone)]
pub struct Wireframe {
    pub id: EntityId,
    pub name: WireframeName,
    pub inputs: InputFields,
    pub outputs: OutputFields,
    pub documentation: Option<DocumentationPath>,
}

#[derive(Debug, Clone)]
pub struct Command {
    pub id: EntityId,
    pub name: CommandName,
    pub actor: Actor,
    pub payload: PayloadFields,
    pub documentation: Option<DocumentationPath>,
}

#[derive(Debug, Clone)]
pub struct Event {
    pub id: EntityId,
    pub name: EventName,
    pub timestamp: EventTimestamp,
    pub data: EventData,
    pub documentation: Option<DocumentationPath>,
}

#[derive(Debug, Clone)]
pub struct Projection {
    pub id: EntityId,
    pub name: ProjectionName,
    pub sources: EventSources,
    pub fields: ProjectionFields,
    pub documentation: Option<DocumentationPath>,
}

#[derive(Debug, Clone)]
pub struct Query {
    pub id: EntityId,
    pub name: QueryName,
    pub projection: ProjectionId,
    pub parameters: QueryParameters,
    pub documentation: Option<DocumentationPath>,
}

#[derive(Debug, Clone)]
pub struct Automation {
    pub id: EntityId,
    pub name: AutomationName,
    pub trigger: EventId,
    pub action: CommandId,
    pub documentation: Option<DocumentationPath>,
}

/// EntityId
#[derive(Debug, PartialEq, Eq, Hash)]
pub struct EntityId(String);

impl View for EntityId {
    type V = Seq<char>;

    closed spec fn view(&self) -> Seq<char> {
        self.0@
    }
}

impl Clone for EntityId {
    fn clone(&self) -> (r: Self)
        ensures
            r@ == self@,
    {
        proof {
            use_type_invariant(self);
        }
        EntityId(self.0.clone())
    }
}

impl EntityId {
    #[verifier::type_invariant]
    spec fn inv(self) -> bool {
        self.0@.len() > 0
    }

    /// Accepts `value` exactly when it is not empty.
    pub fn try_new(value: String) -> (r: Result<Self, ModelValueError>)
        ensures
            value@.len() > 0 <==> r is Ok,
            r matches Ok(v) ==> v@ == value@,
            r matches Err(e) ==> e == ModelValueError::Empty,
    {
        if value.as_str().unicode_len() > 0 {
            Ok(EntityId(value))
        } else {
            Err(ModelValueError::Empty)
        }
    }

    /// The wrapped text.
    pub fn into_inner(self) -> (r: String)
        ensures
            r@ == self@,
            r@.len() > 0,
    {
        proof {
            use_type_invariant(&self);
        }
        self.0
    }
}


/// WireframeName
#[derive(Debug, PartialEq, Eq, Hash)]
pub struct WireframeName(String);

impl View for WireframeName {
    type V = Seq<char>;

    closed spec fn view(&self) -> Seq<char> {
        self.0@
    }
}

impl Clone for WireframeName {
    fn clone(&self) -> (r: Self)
        ensures
            r@ == self@,
    {
        proof {
            use_type_invariant(self);
        }
        WireframeName(self.0.clone())
    }
}

impl WireframeName {
    #[verifier::type_invariant]
    spec fn inv(self) -> bool {
        self.0@.len() > 0
    }

    /// Accepts `value` exactly when it is not empty.
    pub fn try_new(value: String) -> (r: Result<Self, ModelValueError>)
        ensures
            value@.len() > 0 <==> r is Ok,
            r matches Ok(v) ==> v@ == value@,
            r matches Err(e) ==> e == ModelValueError::Empty,
    {
        if value.as_str().unicode_len() > 0 {
            Ok(WireframeName(value))
        } else {
            Err(ModelValueError::Empty)
        }
    }

    /// The wrapped text.
    pub fn into_inner(self) -> (r: String)
        ensures
            r@ == self@,
            r@.len() > 0,
    {
        proof {
            use_type_invariant(&self);
        }
        self.0
    }
}


/// CommandName
#[derive(Debug, PartialEq, Eq, Hash)]
pub struct CommandName(String);

impl View for CommandName {
    type V = Seq<char>;

    closed spec fn view(&self) -> Seq<char> {
        self.0@
    }
}

impl Clone for CommandName {
    fn clone(&self) -> (r: Self)
        ensures
            r@ == self@,
    {
        proof {
            use_type_invariant(self);
        }
        CommandName(self.0.clone())
    }
}

impl CommandName {
    #[verifier::type_invariant]
    spec fn inv(self) -> bool {
        self.0@.len() > 0
    }

    /// Accepts `value` exactly when it is not empty.
    pub fn try_new(value: String) -> (r: Result<Self, ModelValueError>)
        ensures
            value@.len() > 0 <==> r is Ok,
            r matches Ok(v) ==> v@ == value@,
            r matches Err(e) ==> e == ModelValueError::Empty,
    {
        if value.as_str().unicode_len() > 0 {
            Ok(CommandName(value))
        } else {
            Err(ModelValueError::Empty)
        }
    }

    /// The wrapped text.
    pub fn into_inner(self) -> (r: String)
        ensures
            r@ == self@,
            r@.len() > 0,
    {
        proof {
            use_type_invariant(&self);
        }
        self.0
    }
}


/// An event name: PascalCase, letters only.
#[derive(Debug, PartialEq, Eq)]
pub struct EventName(String);

impl View for EventName {
    type V = Seq<char>;

    closed spec fn view(&self) -> Seq<char> {
        self.0@
    }
}

impl Clone for EventName {
    fn clone(&self) -> (r: Self)
        ensures
            r@ == self@,
    {
        proof {
            use_type_invariant(self);
        }
        EventName(self.0.clone())
    }
}

/// `s` is an uppercase ASCII letter followed by ASCII letters.
pub open spec fn is_pascal_word(s: Seq<char>) -> bool {
    &&& s.len() > 0
    &&& is_ascii_upper(s[0])
    &&& forall|i: int| 1 <= i < s.len() ==> #[trigger] is_ascii_alpha(s[i])
}

impl EventName {
    #[verifier::type_invariant]
    spec fn inv(self) -> bool {
        is_pascal_word(self.0@)
    }

    /// Accepts `value` exactly when it matches `[A-Z][a-zA-Z]*`.
    pub fn try_new(value: String) -> (r: Result<Self, ModelValueError>)
        ensures
            is_pascal_word(value@) <==> r is Ok,
            r matches Ok(v) ==> v@ == value@,
            r matches Err(e) ==> e == ModelValueError::InvalidEventName,
    {
        let n = value.as_str().unicode_len();
        if n == 0 {
            return Err(ModelValueError::InvalidEventName);
        }
        let first = value.as_str().get_char(0);
        if !('A' <= first && first <= 'Z') {
            return Err(ModelValueError::InvalidEventName);
        }
        let mut i: usize = 1;
        while i < n
            invariant
                1 <= i <= n,
                n == value@.len(),
                is_ascii_upper(value@[0]),
                forall|k: int| 1 <= k < i ==> #[trigger] is_ascii_alpha(value@[k]),
            decreases n - i,
        {
            let c = value.as_str().get_char(i);
            if !(('a' <= c && c <= 'z') || ('A' <= c && c <= 'Z')) {
                assert(!is_ascii_alpha(value@[i as int]));
                return Err(ModelValueError::InvalidEventName);
            }
            i += 1;
        }
        Ok(EventName(value))
    }

    /// The wrapped text.
    pub fn into_inner(self) -> (r: String)
        ensures
            r@ == self@,
            is_pascal_word(r@),
    {
        proof {
            use_type_invariant(&self);
        }
        self.0
    }
}


/// ProjectionName
#[derive(Debug, PartialEq, Eq, Hash)]
pub struct ProjectionName(String);

impl View for ProjectionName {
    type V = Seq<char>;

    closed spec fn view(&self) -> Seq<char> {
        self.0@
    }
}

impl Clone for ProjectionName {
    fn clone(&self) -> (r: Self)
        ensures
            r@ == self@,
    {
        proof {
            use_type_invariant(self);
        }
        ProjectionName(self.0.clone())
    }
}

impl ProjectionName {
    #[verifier::type_invariant]
    spec fn inv(self) -> bool {
        self.0@.len() > 0
    }

    /// Accepts `value` exactly when it is not empty.
    pub fn try_new(value: String) -> (r: Result<Self, ModelValueError>)
        ensures
            value@.len() > 0 <==> r is Ok,
            r matches Ok(v) ==> v@ == value@,
            r matches Err(e) ==> e == ModelValueError::Empty,
    {
        if value.as_str().unicode_len() > 0 {
            Ok(ProjectionName(value))
        } else {
            Err(ModelValueError::Empty)
        }
    }

    /// The wrapped text.
    pub fn into_inner(self) -> (r: String)
        ensures
            r@ == self@,
            r@.len() > 0,
    {
        proof {
            use_type_invariant(&self);
        }
        self.0
    }
}


/// QueryName
#[derive(Debug, PartialEq, Eq, Hash)]
pub struct QueryName(String);

impl View for QueryName {
    type V = Seq<char>;

    closed spec fn view(&self) -> Seq<char> {
        self.0@
    }
}

impl Clone for QueryName {
    fn clone(&self) -> (r: Self)
        ensures
            r@ == self@,
    {
        proof {
            use_type_invariant(self);
        }
        QueryName(self.0.clone())
    }
}

impl QueryName {
    #[verifier::type_invariant]
    spec fn inv(self) -> bool {
        self.0@.len() > 0
    }

    /// Accepts `value` exactly when it is not empty.
    pub fn try_new(value: String) -> (r: Result<Self, ModelValueError>)
        ensures
            value@.len() > 0 <==> r is Ok,
            r matches Ok(v) ==> v@ == value@,
            r matches Err(e) ==> e == ModelValueError::Empty,
    {
        if value.as_str().unicode_len() > 0 {
            Ok(QueryName(value))
        } else {
            Err(ModelValueError::Empty)
        }
    }

    /// The wrapped text.
    pub fn into_inner(self) -> (r: String)
        ensures
            r@ == self@,
            r@.len() > 0,
    {
        proof {
            use_type_invariant(&self);
        }
        self.0
    }
}


/// AutomationName
#[derive(Debug, PartialEq, Eq, Hash)]
pub struct AutomationName(String);

impl View for AutomationName {
    type V = Seq<char>;

    closed spec fn view(&self) -> Seq<char> {
        self.0@
    }
}

impl Clone for AutomationName {
    fn clone(&self) -> (r: Self)
        ensures
            r@ == self@,
    {
        proof {
            use_type_invariant(self);
        }
        AutomationName(self.0.clone())
    }
}

impl AutomationName {
    #[verifier::type_invariant]
    spec fn inv(self) -> bool {
        self.0@.len() > 0
    }

    /// Accepts `value` exactly when it is not empty.
    pub fn try_new(value: String) -> (r: Result<Self, ModelValueError>)
        ensures
            value@.len() > 0 <==> r is Ok,
            r matches Ok(v) ==> v@ == value@,
            r matches Err(e) ==> e == ModelValueError::Empty,
    {
        if value.as_str().unicode_len() > 0 {
            Ok(AutomationName(value))
        } else {
            Err(ModelValueError::Empty)
        }
    }

    /// The wrapped text.
    pub fn into_inner(self) -> (r: String)
        ensures
            r@ == self@,
            r@.len() > 0,
    {
        proof {
            use_type_invariant(&self);
        }
        self.0
    }
}


/// Actor
#[derive(Debug, PartialEq, Eq, Hash)]
pub struct Actor(String);

impl View for Actor {
    type V = Seq<char>;

    closed spec fn view(&self) -> Seq<char> {
        self.0@
    }
}

impl Clone for Actor {
    fn clone(&self) -> (r: Self)
        ensures
            r@ == self@,
    {
        proof {
            use_type_invariant(self);
        }
        Actor(self.0.clone())
    }
}

impl Actor {
    #[verifier::type_invariant]
    spec fn inv(self) -> bool {
        self.0@.len() > 0
    }

    /// Accepts `value` exactly when it is not empty.
    pub fn try_new(value: String) -> (r: Result<Self, ModelValueError>)
        ensures
            value@.len() > 0 <==> r is Ok,
            r matches Ok(v) ==> v@ == value@,
            r matches Err(e) ==> e == ModelValueError::Empty,
    {
        if value.as_str().unicode_len() > 0 {
            Ok(Actor(value))
        } else {
            Err(ModelValueError::Empty)
        }
    }

    /// The wrapped text.
    pub fn into_inner(self) -> (r: String)
        ensures
            r@ == self@,
            r@.len() > 0,
    {
        proof {
            use_type_invariant(&self);
        }
        self.0
    }
}


#[derive(Debug, Clone)]
pub struct InputFields(Vec<InputField>);

#[derive(Debug, Clone)]
pub struct OutputFields(Vec<OutputField>);

#[derive(Debug, Clone)]
pub struct PayloadFields(Vec<PayloadField>);

#[derive(Debug, Clone)]
pub struct EventData(Vec<EventDataField>);

#[derive(Debug, Clone)]
pub struct ProjectionFields(Vec<ProjectionField>);

#[derive(Debug, Clone)]
pub struct QueryParameters(Vec<QueryParameter>);

#[derive(Debug, Clone)]
pub struct EventSources(Vec<EventId>);

/// InputField
#[derive(Debug, PartialEq, Eq, Hash)]
pub struct InputField(String);

impl View for InputField {
    type V = Seq<char>;

    closed spec fn view(&self) -> Seq<char> {
        self.0@
    }
}

impl Clone for InputField {
    fn clone(&self) -> (r: Self)
        ensures
            r@ == self@,
    {
        proof {
            use_type_invariant(self);
        }
        InputField(self.0.clone())
    }
}

impl InputField {
    #[verifier::type_invariant]
    spec fn inv(self) -> bool {
        self.0@.len() > 0
    }

    /// Accepts `value` exactly when it is not empty.
    pub fn try_new(value: String) -> (r: Result<Self, ModelValueError>)
        ensures
            value@.len() > 0 <==> r is Ok,
            r matches Ok(v) ==> v@ == value@,
            r matches Err(e) ==> e == ModelValueError::Empty,
    {
        if value.as_str().unicode_len() > 0 {
            Ok(InputField(value))
        } else {
            Err(ModelValueError::Empty)
        }
    }

    /// The wrapped text.
    pub fn into_inner(self) -> (r: String)
        ensures
            r@ == self@,
            r@.len() > 0,
    {
        proof {
            use_type_invariant(&self);
        }
        self.0
    }
}


/// OutputField
#[derive(Debug, PartialEq, Eq, Hash)]
pub struct OutputField(String);

impl View for OutputField {
    type V = Seq<char>;

    closed spec fn view(&self) -> Seq<char> {
        self.0@
    }
}

impl Clone for OutputField {
    fn clone(&self) -> (r: Self)
        ensures
            r@ == self@,
    {
        proof {
            use_type_invariant(self);
        }
        OutputField(self.0.clone())
    }
}

impl OutputField {
    #[verifier::type_invariant]
    spec fn inv(self) -> bool {
        self.0@.len() > 0
    }

    /// Accepts `value` exactly when it is not empty.
    pub fn try_new(value: String) -> (r: Result<Self, ModelValueError>)
        ensures
            value@.len() > 0 <==> r is Ok,
            r matches Ok(v) ==> v@ == value@,
            r matches Err(e) ==> e == ModelValueError::Empty,
    {
        if value.as_str().unicode_len() > 0 {
            Ok(OutputField(value))
        } else {
            Err(ModelValueError::Empty)
        }
    }

    /// The wrapped text.
    pub fn into_inner(self) -> (r: String)
        ensures
            r@ == self@,
            r@.len() > 0,
    {
        proof {
            use_type_invariant(&self);
        }
        self.0
    }
}


/// PayloadField
#[derive(Debug, PartialEq, Eq, Hash)]
pub struct PayloadField(String);

impl View for PayloadField {
    type V = Seq<char>;

    closed spec fn view(&self) -> Seq<char> {
        self.0@
    }
}

impl Clone for PayloadField {
    fn clone(&self) -> (r: Self)
        ensures
            r@ == self@,
    {
        proof {
            use_type_invariant(self);
        }
        PayloadField(self.0.clone())
    }
}

impl PayloadField {
    #[verifier::type_invariant]
    spec fn inv(self) -> bool {
        self.0@.len() > 0
    }

    /// Accepts `value` exactly when it is not empty.
    pub fn try_new(value: String) -> (r: Result<Self, ModelValueError>)
        ensures
            value@.len() > 0 <==> r is Ok,
            r matches Ok(v) ==> v@ == value@,
            r matches Err(e) ==> e == ModelValueError::Empty,
    {
        if value.as_str().unicode_len() > 0 {
            Ok(PayloadField(value))
        } else {
            Err(ModelValueError::Empty)
        }
    }

    /// The wrapped text.
    pub fn into_inner(self) -> (r: String)
        ensures
            r@ == self@,
            r@.len() > 0,
    {
        proof {
            use_type_invariant(&self);
        }
        self.0
    }
}


/// EventDataField
#[derive(Debug, PartialEq, Eq, Hash)]
pub struct EventDataField(String);

impl View for EventDataField {
    type V = Seq<char>;

    closed spec fn view(&self) -> Seq<char> {
        self.0@
    }
}

impl Clone for EventDataField {
    fn clone(&self) -> (r: Self)
        ensures
            r@ == self@,
    {
        proof {
            use_type_invariant(self);
        }
        EventDataField(self.0.clone())
    }
}

impl EventDataField {
    #[verifier::type_invariant]
    spec fn inv(self) -> bool {
        self.0@.len() > 0
    }

    /// Accepts `value` exactly when it is not empty.
    pub fn try_new(value: String) -> (r: Result<Self, ModelValueError>)
        ensures
            value@.len() > 0 <==> r is Ok,
            r matches Ok(v) ==> v@ == value@,
            r matches Err(e) ==> e == ModelValueError::Empty,
    {
        if value.as_str().unicode_len() > 0 {
            Ok(EventDataField(value))
        } else {
            Err(ModelValueError::Empty)
        }
    }

    /// The wrapped text.
    pub fn into_inner(self) -> (r: String)
        ensures
            r@ == self@,
            r@.len() > 0,
    {
        proof {
            use_type_invariant(&self);
        }
        self.0
    }
}


/// ProjectionField
#[derive(Debug, PartialEq, Eq, Hash)]
pub struct ProjectionField(String);

impl View for ProjectionField {
    type V = Seq<char>;

    closed spec fn view(&self) -> Seq<char> {
        self.0@
    }
}

impl Clone for ProjectionField {
    fn clone(&self) -> (r: Self)
        ensures
            r@ == self@,
    {
        proof {
            use_type_invariant(self);
        }
        ProjectionField(self.0.clone())
    }
}

impl ProjectionField {
    #[verifier::type_invariant]
    spec fn inv(self) -> bool {
        self.0@.len() > 0
    }

    /// Accepts `value` exactly when it is not empty.
    pub fn try_new(value: String) -> (r: Result<Self, ModelValueError>)
        ensures
            value@.len() > 0 <==> r is Ok,
            r matches Ok(v) ==> v@ == value@,
            r matches Err(e) ==> e == ModelValueError::Empty,
    {
        if value.as_str().unicode_len() > 0 {
            Ok(ProjectionField(value))
        } else {
            Err(ModelValueError::Empty)
        }
    }

    /// The wrapped text.
    pub fn into_inner(self) -> (r: String)
        ensures
            r@ == self@,
            r@.len() > 0,
    {
        proof {
            use_type_invariant(&self);
        }
        self.0
    }
}


/// QueryParameter
#[derive(Debug, PartialEq, Eq, Hash)]
pub struct QueryParameter(String);

impl View for QueryParameter {
    type V = Seq<char>;

    closed spec fn view(&self) -> Seq<char> {
        self.0@
    }
}

impl Clone for QueryParameter {
    fn clone(&self) -> (r: Self)
        ensures
            r@ == self@,
    {
        proof {
            use_type_invariant(self);
        }
        QueryParameter(self.0.clone())
    }
}

impl QueryParameter {
    #[verifier::type_invariant]
    spec fn inv(self) -> bool {
        self.0@.len() > 0
    }

    /// Accepts `value` exactly when it is not empty.
    pub fn try_new(value: String) -> (r: Result<Self, ModelValueError>)
        ensures
            value@.len() > 0 <==> r is Ok,
            r matches Ok(v) ==> v@ == value@,
            r matches Err(e) ==> e == ModelValueError::Empty,
    {
        if value.as_str().unicode_len() > 0 {
            Ok(QueryParameter(value))
        } else {
            Err(ModelValueError::Empty)
        }
    }

    /// The wrapped text.
    pub fn into_inner(self) -> (r: String)
        ensures
            r@ == self@,
            r@.len() > 0,
    {
        proof {
            use_type_invariant(&self);
        }
        self.0
    }
}


/// EventTimestamp
#[derive(Debug, Clone, Copy, PartialEq, Eq, Structural, PartialOrd, Ord)]
pub struct EventTimestamp(u32);

impl View for EventTimestamp {
    type V = u32;

    closed spec fn view(&self) -> u32 {
        self.0
    }
}

impl EventTimestamp {
    /// Every value is accepted.
    pub fn try_new(value: u32) -> (r: Result<Self, ModelValueError>)
        ensures
            r matches Ok(v) && v@ == value,
    {
        Ok(EventTimestamp(value))
    }

    /// The wrapped value.
    pub fn into_inner(self) -> (r: u32)
        ensures
            r == self@,
    {
        self.0
    }
}


/// EventId
#[derive(Debug, PartialEq, Eq, Hash)]
pub struct EventId(String);

impl View for EventId {
    type V = Seq<char>;

    closed spec fn view(&self) -> Seq<char> {
        self.0@
    }
}

impl Clone for EventId {
    fn clone(&self) -> (r: Self)
        ensures
            r@ == self@,
    {
        proof {
            use_type_invariant(self);
        }
        EventId(self.0.clone())
    }
}

impl EventId {
    #[verifier::type_invariant]
    spec fn inv(self) -> bool {
        self.0@.len() > 0
    }

    /// Accepts `value` exactly when it is not empty.
    pub fn try_new(value: String) -> (r: Result<Self, ModelValueError>)
        ensures
            value@.len() > 0 <==> r is Ok,
            r matches Ok(v) ==> v@ == value@,
            r matches Err(e) ==> e == ModelValueError::Empty,
    {
        if value.as_str().unicode_len() > 0 {
            Ok(EventId(value))
        } else {
            Err(ModelValueError::Empty)
        }
    }

    /// The wrapped text.
    pub fn into_inner(self) -> (r: String)
        ensures
            r@ == self@,
            r@.len() > 0,
    {
        proof {
            use_type_invariant(&self);
        }
        self.0
    }
}


/// CommandId
#[derive(Debug, PartialEq, Eq, Hash)]
pub struct CommandId(String);

impl View for CommandId {
    type V = Seq<char>;

    closed spec fn view(&self) -> Seq<char> {
        self.0@
    }
}

impl Clone for CommandId {
    fn clone(&self) -> (r: Self)
        ensures
            r@ == self@,
    {
        proof {
            use_type_invariant(self);
        }
        CommandId(self.0.clone())
    }
}

impl CommandId {
    #[verifier::type_invariant]
    spec fn inv(self) -> bool {
        self.0@.len() > 0
    }

    /// Accepts `value` exactly when it is not empty.
    pub fn try_new(value: String) -> (r: Result<Self, ModelValueError>)
        ensures
            value@.len() > 0 <==> r is Ok,
            r matches Ok(v) ==> v@ == value@,
            r matches Err(e) ==> e == ModelValueError::Empty,
    {
        if value.as_str().unicode_len() > 0 {
            Ok(CommandId(value))
        } else {
            Err(ModelValueError::Empty)
        }
    }

    /// The wrapped text.
    pub fn into_inner(self) -> (r: String)
        ensures
            r@ == self@,
            r@.len() > 0,
    {
        proof {
            use_type_invariant(&self);
        }
        self.0
    }
}


/// ProjectionId
#[derive(Debug, PartialEq, Eq, Hash)]
pub struct ProjectionId(String);

impl View for ProjectionId {
    type V = Seq<char>;

    closed spec fn view(&self) -> Seq<char> {
        self.0@
    }
}

impl Clone for ProjectionId {
    fn clone(&self) -> (r: Self)
        ensures
            r@ == self@,
    {
        proof {
            use_type_invariant(self);
        }
        ProjectionId(self.0.clone())
    }
}

impl ProjectionId {
    #[verifier::type_invariant]
    spec fn inv(self) -> bool {
        self.0@.len() > 0
    }

    /// Accepts `value` exactly when it is not empty.
    pub fn try_new(value: String) -> (r: Result<Self, ModelValueError>)
        ensures
            value@.len() > 0 <==> r is Ok,
            r matches Ok(v) ==> v@ == value@,
            r matches Err(e) ==> e == ModelValueError::Empty,
    {
        if value.as_str().unicode_len() > 0 {
            Ok(ProjectionId(value))
        } else {
            Err(ModelValueError::Empty)
        }
    }

    /// The wrapped text.
    pub fn into_inner(self) -> (r: String)
        ensures
            r@ == self@,
            r@.len() > 0,
    {
        proof {
            use_type_invariant(&self);
        }
        self.0
    }
}


/// Path to a Markdown document.
#[derive(Debug, PartialEq, Eq)]
pub struct DocumentationPath(String);

impl View for DocumentationPath {
    type V = Seq<char>;

    closed spec fn view(&self) -> Seq<char> {
        self.0@
    }
}

impl Clone for DocumentationPath {
    fn clone(&self) -> (r: Self)
        ensures
            r@ == self@,
    {
        DocumentationPath(self.0.clone())
    }
}

impl DocumentationPath {
    /// Accepts `path` exactly when its extension is `md`.
    pub fn try_new(path: String) -> (r: Result<Self, ModelValueError>)
        ensures
            (path_extension(path@) == Some("md"@)) <==> r is Ok,
            r matches Ok(v) ==> v@ == path@,
            r matches Err(e) ==> e == ModelValueError::NotMarkdownPath,
    {
        match extension_of(path.as_str()) {
            Some(e) => {
                if str_equal(e.as_str(), "md") {
                    Ok(DocumentationPath(path))
                } else {
                    Err(ModelValueError::NotMarkdownPath)
                }
            },
            None => Err(ModelValueError::NotMarkdownPath),
        }
    }

    /// The path.
    pub fn into_inner(self) -> (r: String)
        ensures
            r@ == self@,
    {
        self.0
    }
}


impl View for InputFields {
    type V = Seq<InputField>;

    closed spec fn view(&self) -> Seq<InputField> {
        self.0@
    }
}

impl InputFields {
    /// Holds the given items, in their order.
    pub fn new(fields: Vec<InputField>) -> (r: Self)
        ensures
            r@ == fields@,
    {
        Self(fields)
    }

    /// The items, in their order.
    pub fn fields(&self) -> (r: &[InputField])
        ensures
            r@ == self@,
    {
        self.0.as_slice()
    }
}

impl View for OutputFields {
    type V = Seq<OutputField>;

    closed spec fn view(&self) -> Seq<OutputField> {
        self.0@
    }
}

impl OutputFields {
    /// Holds the given items, in their order.
    pub fn new(fields: Vec<OutputField>) -> (r: Self)
        ensures
            r@ == fields@,
    {
        Self(fields)
    }

    /// The items, in their order.
    pub fn fields(&self) -> (r: &[OutputField])
        ensures
            r@ == self@,
    {
        self.0.as_slice()
    }
}

impl View for PayloadFields {
    type V = Seq<PayloadField>;

    closed spec fn view(&self) -> Seq<PayloadField> {
        self.0@
    }
}

impl PayloadFields {
    /// Holds the given items, in their order.
    pub fn new(fields: Vec<PayloadField>) -> (r: Self)
        ensures
            r@ == fields@,
    {
        Self(fields)
    }

    /// The items, in their order.
    pub fn fields(&self) -> (r: &[PayloadField])
        ensures
            r@ == self@,
    {
        self.0.as_slice()
    }
}

impl View for EventData {
    type V = Seq<EventDataField>;

    closed spec fn view(&self) -> Seq<EventDataField> {
        self.0@
    }
}

impl EventData {
    /// Holds the given items, in their order.
    pub fn new(fields: Vec<EventDataField>) -> (r: Self)
        ensures
            r@ == fields@,
    {
        Self(fields)
    }

    /// The items, in their order.
    pub fn fields(&self) -> (r: &[EventDataField])
        ensures
            r@ == self@,
    {
        self.0.as_slice()
    }
}

impl View for ProjectionFields {
    type V = Seq<ProjectionField>;

    closed spec fn view(&self) -> Seq<ProjectionField> {
        self.0@
    }
}

impl ProjectionFields {
    /// Holds the given items, in their order.
    pub fn new(fields: Vec<ProjectionField>) -> (r: Self)
        ensures
            r@ == fields@,
    {
        Self(fields)
    }

    /// The items, in their order.
    pub fn fields(&self) -> (r: &[ProjectionField])
        ensures
            r@ == self@,
    {
        self.0.as_slice()
    }
}

impl View for QueryParameters {
    type V = Seq<QueryParameter>;

    closed spec fn view(&self) -> Seq<QueryParameter> {
        self.0@
    }
}

impl QueryParameters {
    /// Holds the given items, in their order.
    pub fn new(params: Vec<QueryParameter>) -> (r: Self)
        ensures
            r@ == params@,
    {
        Self(params)
    }

    /// The items, in their order.
    pub fn parameters(&self) -> (r: &[QueryParameter])
        ensures
            r@ == self@,
    {
        self.0.as_slice()
    }
}

impl View for EventSources {
    type V = Seq<EventId>;

    closed spec fn view(&self) -> Seq<EventId> {
        self.0@
    }
}

impl EventSources {
    /// Holds the given items, in their order.
    pub fn new(sources: Vec<EventId>) -> (r: Self)
        ensures
            r@ == sources@,
    {
        Self(sources)
    }

    /// The items, in their order.
    pub fn sources(&self) -> (r: &[EventId])
        ensures
            r@ == self@,
    {
        self.0.as_slice()
    }
}

} // verus!
