//! The canonical document: servers, the path table with its operations, and
//! the table of component schemas, with their mathematical models.

use vstd::prelude::*;

verus! {

/// The models of a sequence of values.
pub open spec fn views<T: View>(values: Seq<T>) -> Seq<T::V> {
    Seq::new(values.len(), |i: int| values[i]@)
}

/// The model of a value that may be missing.
pub open spec fn view_of<T: View>(value: Option<T>) -> Option<T::V> {
    match value {
        Some(v) => Some(v@),
        None => None,
    }
}

// ---------------------------------------------------------------------------
// Schemas
// ---------------------------------------------------------------------------
/// The mathematical model of a schema.
pub enum SchemaView {
    String,
    Integer,
    Number,
    Boolean,
    Object { properties: Seq<(Seq<char>, SchemaView)>, required: Seq<Seq<char>> },
    Array { items: Option<Box<SchemaView>> },
    Reference { target: Seq<char> },
    Unknown,
}

/// A schema under a name: a property of an object, or a component.
#[derive(Debug, PartialEq)]
pub struct NamedSchema {
    pub name: String,
    pub schema: Schema,
}

/// The shape of a value. A reference stands for the component it names;
/// `Unknown` stands for every shape that no sample is known for.
#[derive(Debug, PartialEq)]
pub enum Schema {
    String,
    Integer,
    Number,
    Boolean,
    Object { properties: Vec<NamedSchema>, required: Vec<String> },
    Array { items: Option<Box<Schema>> },
    Reference { target: String },
    Unknown,
}

/// The models of named schemas, in order.
pub open spec fn named_views(entries: Seq<NamedSchema>) -> Seq<(Seq<char>, SchemaView)>
    decreases entries, 0nat,
{
    Seq::new(
        entries.len(),
        |i: int|
            if 0 <= i < entries.len() {
                (entries[i].name@, entries[i].schema.view())
            } else {
                (Seq::empty(), SchemaView::Unknown)
            },
    )
}

/// The model of the schema of the items of an array.
pub open spec fn items_view(items: Option<Box<Schema>>) -> Option<Box<SchemaView>>
    decreases items, 0nat,
{
    match items {
        Some(inner) => Some(Box::new((*inner).view())),
        None => None,
    }
}

impl View for Schema {
    type V = SchemaView;

    open spec fn view(&self) -> SchemaView
        decreases self, 1nat,
    {
        match self {
            Schema::String => SchemaView::String,
            Schema::Integer => SchemaView::Integer,
            Schema::Number => SchemaView::Number,
            Schema::Boolean => SchemaView::Boolean,
            Schema::Object { properties, required } => SchemaView::Object {
                properties: named_views(properties@),
                required: views(required@),
            },
            Schema::Array { items } => SchemaView::Array { items: items_view(*items) },
            Schema::Reference { target } => SchemaView::Reference { target: target@ },
            Schema::Unknown => SchemaView::Unknown,
        }
    }
}

// ---------------------------------------------------------------------------
// Parameters, request bodies, responses
// ---------------------------------------------------------------------------
/// Where a parameter is sent.
#[derive(Debug, Clone, Copy, PartialEq, Eq, Structural)]
pub enum Location {
    Path,
    Query,
    Header,
    Cookie,
}

/// The mathematical model of a parameter.
pub struct ParameterView {
    pub name: Seq<char>,
    pub location: Location,
    pub required: bool,
    pub description: Option<Seq<char>>,
    pub schema: Option<SchemaView>,
}

/// A parameter of an operation. `schema` is missing where the parameter
/// describes its value by content instead.
#[derive(Debug, PartialEq)]
pub struct Parameter {
    pub name: String,
    pub location: Location,
    pub required: bool,
    pub description: Option<String>,
    pub schema: Option<Schema>,
}

impl View for Parameter {
    type V = ParameterView;

    open spec fn view(&self) -> ParameterView {
        ParameterView {
            name: self.name@,
            location: self.location,
            required: self.required,
            description: view_of(self.description),
            schema: view_of(self.schema),
        }
    }
}

/// The mathematical model of the content of one media type.
pub struct MediaTypeView {
    pub media_type: Seq<char>,
    pub schema: Option<SchemaView>,
}

/// What a request body holds for one media type.
#[derive(Debug, PartialEq)]
pub struct MediaType {
    pub media_type: String,
    pub schema: Option<Schema>,
}

impl View for MediaType {
    type V = MediaTypeView;

    open spec fn view(&self) -> MediaTypeView {
        MediaTypeView { media_type: self.media_type@, schema: view_of(self.schema) }
    }
}

/// The mathematical model of a request body.
pub struct RequestBodyView {
    pub content: Seq<MediaTypeView>,
}

/// The body of a request: its content by media type, in document order.
#[derive(Debug, PartialEq)]
pub struct RequestBody {
    pub content: Vec<MediaType>,
}

impl View for RequestBody {
    type V = RequestBodyView;

    open spec fn view(&self) -> RequestBodyView {
        RequestBodyView { content: views(self.content@) }
    }
}

/// The mathematical model of a response.
pub struct ResponseView {
    pub status: Seq<char>,
    pub description: Option<Seq<char>>,
}

/// A response of an operation under its status code.
#[derive(Debug, Clone, PartialEq)]
pub struct Response {
    pub status: String,
    pub description: Option<String>,
}

impl View for Response {
    type V = ResponseView;

    open spec fn view(&self) -> ResponseView {
        ResponseView { status: self.status@, description: view_of(self.description) }
    }
}

// ---------------------------------------------------------------------------
// Operations and paths
// ---------------------------------------------------------------------------
/// The mathematical model of an operation.
pub struct OperationView {
    pub operation_id: Option<Seq<char>>,
    pub summary: Option<Seq<char>>,
    pub description: Option<Seq<char>>,
    pub parameters: Seq<ParameterView>,
    pub request_body: Option<RequestBodyView>,
    pub responses: Seq<ResponseView>,
}

/// One HTTP verb bound to one path template.
#[derive(Debug, PartialEq)]
pub struct Operation {
    pub operation_id: Option<String>,
    pub summary: Option<String>,
    pub description: Option<String>,
    pub parameters: Vec<Parameter>,
    pub request_body: Option<RequestBody>,
    pub responses: Vec<Response>,
}

impl View for Operation {
    type V = OperationView;

    open spec fn view(&self) -> OperationView {
        OperationView {
            operation_id: view_of(self.operation_id),
            summary: view_of(self.summary),
            description: view_of(self.description),
            parameters: views(self.parameters@),
            request_body: view_of(self.request_body),
            responses: views(self.responses@),
        }
    }
}

impl Default for Operation {
    /// An operation that declares nothing.
    fn default() -> (operation: Operation)
        ensures
            operation@ == (OperationView {
                operation_id: None,
                summary: None,
                description: None,
                parameters: Seq::empty(),
                request_body: None,
                responses: Seq::empty(),
            }),
    {
        let operation = Operation {
            operation_id: None,
            summary: None,
            description: None,
            parameters: Vec::new(),
            request_body: None,
            responses: Vec::new(),
        };
        assert(operation@.parameters =~= Seq::empty());
        assert(operation@.responses =~= Seq::empty());
        operation
    }
}

/// An HTTP verb that a path item can bind an operation to.
#[derive(Debug, Clone, Copy, PartialEq, Eq, Structural)]
pub enum Verb {
    Get,
    Put,
    Post,
    Delete,
    Options,
    Head,
    Patch,
    Trace,
}

/// The verbs in the order in which the operations of a path item are walked.
pub open spec fn verb_order() -> Seq<Verb> {
    seq![
        Verb::Get,
        Verb::Put,
        Verb::Post,
        Verb::Delete,
        Verb::Options,
        Verb::Head,
        Verb::Patch,
        Verb::Trace,
    ]
}

impl Verb {
    /// The key that a path item holds the operation of this verb under.
    pub open spec fn key(self) -> Seq<char> {
        match self {
            Verb::Get => "get"@,
            Verb::Put => "put"@,
            Verb::Post => "post"@,
            Verb::Delete => "delete"@,
            Verb::Options => "options"@,
            Verb::Head => "head"@,
            Verb::Patch => "patch"@,
            Verb::Trace => "trace"@,
        }
    }

    /// The verb as a request names it.
    pub open spec fn upper(self) -> Seq<char> {
        match self {
            Verb::Get => "GET"@,
            Verb::Put => "PUT"@,
            Verb::Post => "POST"@,
            Verb::Delete => "DELETE"@,
            Verb::Options => "OPTIONS"@,
            Verb::Head => "HEAD"@,
            Verb::Patch => "PATCH"@,
            Verb::Trace => "TRACE"@,
        }
    }

    /// The key that a path item holds the operation of this verb under.
    pub fn key_name(self) -> (name: &'static str)
        ensures
            name@ == self.key(),
    {
        match self {
            Verb::Get => "get",
            Verb::Put => "put",
            Verb::Post => "post",
            Verb::Delete => "delete",
            Verb::Options => "options",
            Verb::Head => "head",
            Verb::Patch => "patch",
            Verb::Trace => "trace",
        }
    }

    /// The verb as a request names it, in upper case.
    pub fn name(self) -> (name: &'static str)
        ensures
            name@ == self.upper(),
    {
        match self {
            Verb::Get => "GET",
            Verb::Put => "PUT",
            Verb::Post => "POST",
            Verb::Delete => "DELETE",
            Verb::Options => "OPTIONS",
            Verb::Head => "HEAD",
            Verb::Patch => "PATCH",
            Verb::Trace => "TRACE",
        }
    }
}

/// The mathematical model of a path item.
pub struct PathItemView {
    pub get: Option<OperationView>,
    pub put: Option<OperationView>,
    pub post: Option<OperationView>,
    pub delete: Option<OperationView>,
    pub options: Option<OperationView>,
    pub head: Option<OperationView>,
    pub patch: Option<OperationView>,
    pub trace: Option<OperationView>,
}

impl PathItemView {
    /// The operation bound to a verb.
    pub open spec fn operation(self, verb: Verb) -> Option<OperationView> {
        match verb {
            Verb::Get => self.get,
            Verb::Put => self.put,
            Verb::Post => self.post,
            Verb::Delete => self.delete,
            Verb::Options => self.options,
            Verb::Head => self.head,
            Verb::Patch => self.patch,
            Verb::Trace => self.trace,
        }
    }

    /// The operations of the first `count` verbs of the order, each with its
    /// verb.
    pub open spec fn operations_among(self, count: int) -> Seq<(Verb, OperationView)>
        decreases count,
    {
        if count <= 0 {
            Seq::empty()
        } else {
            let before = self.operations_among(count - 1);
            match self.operation(verb_order()[count - 1]) {
                Some(operation) => before.push((verb_order()[count - 1], operation)),
                None => before,
            }
        }
    }

    /// The operations of the path item, each with its verb, in the order of
    /// the verbs.
    pub open spec fn operations(self) -> Seq<(Verb, OperationView)> {
        self.operations_among(8)
    }
}

/// The operations of one path template, at most one for each verb.
#[derive(Debug, PartialEq)]
pub struct PathItem {
    pub get: Option<Operation>,
    pub put: Option<Operation>,
    pub post: Option<Operation>,
    pub delete: Option<Operation>,
    pub options: Option<Operation>,
    pub head: Option<Operation>,
    pub patch: Option<Operation>,
    pub trace: Option<Operation>,
}

impl View for PathItem {
    type V = PathItemView;

    open spec fn view(&self) -> PathItemView {
        PathItemView {
            get: view_of(self.get),
            put: view_of(self.put),
            post: view_of(self.post),
            delete: view_of(self.delete),
            options: view_of(self.options),
            head: view_of(self.head),
            patch: view_of(self.patch),
            trace: view_of(self.trace),
        }
    }
}

impl Default for PathItem {
    /// A path item without operations.
    fn default() -> (item: PathItem)
        ensures
            item@.operations() == Seq::<(Verb, OperationView)>::empty(),
            forall|verb: Verb| item@.operation(verb) is None,
    {
        let item = PathItem {
            get: None,
            put: None,
            post: None,
            delete: None,
            options: None,
            head: None,
            patch: None,
            trace: None,
        };
        proof {
            reveal_with_fuel(PathItemView::operations_among, 9);
        }
        item
    }
}

impl PathItem {
    /// The operation bound to a verb.
    pub fn operation(&self, verb: Verb) -> (found: Option<&Operation>)
        ensures
            match found {
                Some(operation) => self@.operation(verb) == Some(operation@),
                None => self@.operation(verb) is None,
            },
    {
        match verb {
            Verb::Get => self.get.as_ref(),
            Verb::Put => self.put.as_ref(),
            Verb::Post => self.post.as_ref(),
            Verb::Delete => self.delete.as_ref(),
            Verb::Options => self.options.as_ref(),
            Verb::Head => self.head.as_ref(),
            Verb::Patch => self.patch.as_ref(),
            Verb::Trace => self.trace.as_ref(),
        }
    }
}

/// The verbs in the order in which the operations of a path item are walked.
pub fn verbs() -> (order: Vec<Verb>)
    ensures
        order@ == verb_order(),
{
    let mut order: Vec<Verb> = Vec::new();
    order.push(Verb::Get);
    order.push(Verb::Put);
    order.push(Verb::Post);
    order.push(Verb::Delete);
    order.push(Verb::Options);
    order.push(Verb::Head);
    order.push(Verb::Patch);
    order.push(Verb::Trace);
    assert(order@ =~= verb_order());
    order
}

// ---------------------------------------------------------------------------
// The document
// ---------------------------------------------------------------------------
/// The mathematical model of a document.
pub struct DocumentView {
    pub servers: Seq<Seq<char>>,
    pub paths: Seq<(Seq<char>, PathItemView)>,
    pub components: Seq<(Seq<char>, SchemaView)>,
}

/// A server that the described API is reached at.
#[derive(Debug, Clone, PartialEq)]
pub struct Server {
    pub url: String,
}

impl View for Server {
    type V = Seq<char>;

    open spec fn view(&self) -> Seq<char> {
        self.url@
    }
}

/// The operations of one URL template.
#[derive(Debug, PartialEq)]
pub struct PathEntry {
    pub template: String,
    pub item: PathItem,
}

impl View for PathEntry {
    type V = (Seq<char>, PathItemView);

    open spec fn view(&self) -> (Seq<char>, PathItemView) {
        (self.template@, self.item@)
    }
}

/// The canonical document: built once from a description and read from then on.
#[derive(Debug, PartialEq)]
pub struct Document {
    pub servers: Vec<Server>,
    pub paths: Vec<PathEntry>,
    pub components: Vec<NamedSchema>,
}

impl View for Document {
    type V = DocumentView;

    open spec fn view(&self) -> DocumentView {
        DocumentView {
            servers: views(self.servers@),
            paths: views(self.paths@),
            components: named_views(self.components@),
        }
    }
}

impl DocumentView {
    /// No two entries of the path table have the same template, and no two
    /// components the same name: an operation is known by its template and
    /// verb, a component by its name.
    pub open spec fn well_formed(self) -> bool {
        &&& forall|i: int, j: int|
            0 <= i < j < self.paths.len() ==> (#[trigger] self.paths[i]).0 != (
            #[trigger] self.paths[j]).0
        &&& forall|i: int, j: int|
            0 <= i < j < self.components.len() ==> (#[trigger] self.components[i]).0 != (
            #[trigger] self.components[j]).0
    }
}

impl Default for Document {
    /// A document that declares nothing.
    fn default() -> (document: Document)
        ensures
            document@ == (DocumentView {
                servers: Seq::empty(),
                paths: Seq::empty(),
                components: Seq::empty(),
            }),
            document@.well_formed(),
    {
        let document = Document {
            servers: Vec::new(),
            paths: Vec::new(),
            components: Vec::new(),
        };
        assert(document@.servers =~= Seq::empty());
        assert(document@.paths =~= Seq::empty());
        assert(document@.components =~= Seq::empty());
        document
    }
}

} // verus!

