//! Renders one script per operation of a document, for the POSIX shell or
//! for the Windows shell.

use crate::document::{
    verb_order, verbs, view_of, views, Document, DocumentView, Location, MediaType,
    MediaTypeView, Operation, OperationView, Parameter, ParameterView, PathItemView, Schema,
    SchemaView, Verb,
};
use crate::error::CurlGeneratorError;
use crate::sample::{
    generate_sample_from_schema, resolve_schema_reference, resolved, sample, sample_text,
    MAX_SAMPLE_DEPTH,
};
use crate::script::ScriptFile;
use crate::text::{
    all_ascii, ascii_lower, ascii_upper, ascii_words_known, capitalize_first, capitalized,
    concat, lemma_replace_keeps_prefix, pascal_case, replace, replace_all, snake_case,
    starts_with, text_eq, to_pascal_case, to_snake_case,
};
use vstd::prelude::*;

verus! {

/// The mathematical model of the settings.
pub struct SettingsView {
    pub authorization_header: Option<Seq<char>>,
    pub content_type: Seq<char>,
    pub base_url: Option<Seq<char>>,
    pub generate_bash_scripts: bool,
}

/// How the scripts are rendered.
#[derive(Debug, Clone)]
pub struct GeneratorSettings {
    /// The Authorization header to send, if any.
    pub authorization_header: Option<String>,
    /// The media type of the Accept and Content-Type headers and of the body.
    pub content_type: String,
    /// The URL to use in place of the server that the document declares.
    pub base_url: Option<String>,
    /// Scripts for the POSIX shell rather than for the Windows shell.
    pub generate_bash_scripts: bool,
}

impl View for GeneratorSettings {
    type V = SettingsView;

    open spec fn view(&self) -> SettingsView {
        SettingsView {
            authorization_header: view_of(self.authorization_header),
            content_type: self.content_type@,
            base_url: view_of(self.base_url),
            generate_bash_scripts: self.generate_bash_scripts,
        }
    }
}

/// The scripts of one run, in the order of the document.
#[derive(Debug)]
pub struct GeneratorResult {
    pub files: Vec<ScriptFile>,
}

impl View for GeneratorResult {
    type V = Seq<(Seq<char>, Seq<char>)>;

    open spec fn view(&self) -> Seq<(Seq<char>, Seq<char>)> {
        views(self.files@)
    }
}

/// What a script needs to know of a parameter: its name and description.
#[derive(Debug, Clone)]
pub struct ParamInfo {
    pub name: String,
    pub description: Option<String>,
}

/// The mathematical model of what a script knows of a parameter.
pub struct ParamInfoView {
    pub name: Seq<char>,
    pub description: Option<Seq<char>>,
}

impl View for ParamInfo {
    type V = ParamInfoView;

    open spec fn view(&self) -> ParamInfoView {
        ParamInfoView { name: self.name@, description: view_of(self.description) }
    }
}

// ---------------------------------------------------------------------------
// Base URL and names
// ---------------------------------------------------------------------------
/// The URL that every request begins with: the override of the settings,
/// else the first server of the document, else `http://localhost`.
pub open spec fn base_url(document: DocumentView, settings: SettingsView) -> Seq<char> {
    match settings.base_url {
        Some(url) => url,
        None => if document.servers.len() > 0 {
            document.servers[0]
        } else {
            "http://localhost"@
        },
    }
}

/// The identifier of an operation with hyphens, slashes and spaces turned
/// into underscores.
pub open spec fn cleaned_identifier(identifier: Seq<char>) -> Seq<char> {
    replace_all(
        replace_all(replace_all(identifier, "-"@, "_"@), "/"@, "_"@),
        " "@,
        "_"@,
    )
}

/// The path template with slashes and hyphens turned into underscores and
/// without its braces.
pub open spec fn cleaned_path(path: Seq<char>) -> Seq<char> {
    replace_all(
        replace_all(replace_all(replace_all(path, "/"@, "_"@), "{"@, ""@), "}"@, ""@),
        "-"@,
        "_"@,
    )
}

/// The name of an operation: the verb, followed by the words of the cleaned
/// identifier or, where the operation declares none, of the cleaned path,
/// each capitalized.
pub open spec fn operation_name(verb: Seq<char>, path: Seq<char>, operation: OperationView) -> Seq<
    char,
> {
    match operation.operation_id {
        Some(identifier) => verb + pascal_case(cleaned_identifier(identifier)),
        None => verb + pascal_case(cleaned_path(path)),
    }
}

/// Picks the base URL of the requests.
pub fn determine_base_url(document: &Document, settings: &GeneratorSettings) -> (url: String)
    ensures
        url@ == base_url(document@, settings@),
{
    match &settings.base_url {
        Some(url) => url.clone(),
        None => {
            if document.servers.len() > 0 {
                document.servers[0].url.clone()
            } else {
                String::from_str("http://localhost")
            }
        },
    }
}

/// The text whose words make the name of an operation: the cleaned
/// identifier or, where the operation declares none, the cleaned path.
pub open spec fn name_words(path: Seq<char>, operation: OperationView) -> Seq<char> {
    match operation.operation_id {
        Some(identifier) => cleaned_identifier(identifier),
        None => cleaned_path(path),
    }
}

/// Names an operation after its identifier or, without one, after its path.
/// The upper case of a character of ASCII that begins a word of the name is
/// the one that `ascii_upper` gives.
pub fn generate_operation_name(verb: &str, path: &str, operation: &Operation) -> (name: String)
    ensures
        name@ == operation_name(verb@, path@, operation@),
        ascii_words_known(name_words(path@, operation@)),
{
    match &operation.operation_id {
        Some(identifier) => {
            let a = replace(identifier.as_str(), "-", "_");
            let b = replace(a.as_str(), "/", "_");
            let c = replace(b.as_str(), " ", "_");
            let tail = to_pascal_case(c.as_str());
            concat(verb, tail.as_str())
        },
        None => {
            let a = replace(path, "/", "_");
            let b = replace(a.as_str(), "{", "");
            let c = replace(b.as_str(), "}", "");
            let d = replace(c.as_str(), "-", "_");
            let tail = to_pascal_case(d.as_str());
            concat(verb, tail.as_str())
        },
    }
}

// ---------------------------------------------------------------------------
// Parameters
// ---------------------------------------------------------------------------
/// A parameter that a script substitutes in the path: one in the path
/// location.
pub open spec fn in_path(parameter: ParameterView) -> bool {
    parameter.location == Location::Path
}

/// A parameter that a script appends to the URL: one in the query location.
pub open spec fn in_query(parameter: ParameterView) -> bool {
    parameter.location == Location::Query
}

/// What a script knows of the parameters that are substituted in the path
/// (`path` set) or appended as the query (`path` not set), in their order.
pub open spec fn chosen_parameters(parameters: Seq<ParameterView>, path: bool) -> Seq<
    ParamInfoView,
>
    decreases parameters.len(),
{
    if parameters.len() == 0 {
        Seq::empty()
    } else {
        let before = chosen_parameters(parameters.drop_last(), path);
        let p = parameters.last();
        if (path && in_path(p)) || (!path && in_query(p)) {
            before.push(ParamInfoView { name: p.name, description: p.description })
        } else {
            before
        }
    }
}

fn choose_parameters(operation: &Operation, path: bool) -> (chosen: Vec<ParamInfo>)
    ensures
        views(chosen@) == chosen_parameters(operation@.parameters, path),
{
    let ghost model = operation@.parameters;
    let mut chosen: Vec<ParamInfo> = Vec::new();
    let mut i: usize = 0;
    assert(views(chosen@) =~= chosen_parameters(model.take(0), path));
    while i < operation.parameters.len()
        invariant
            i <= operation.parameters.len(),
            model == views(operation.parameters@),
            views(chosen@) == chosen_parameters(model.take(i as int), path),
        decreases operation.parameters.len() - i,
    {
        let p = &operation.parameters[i];
        proof {
            assert(model.take(i + 1).drop_last() =~= model.take(i as int));
            assert(model.take(i + 1).last() == p@);
        }
        let wanted = if path {
            p.location == Location::Path
        } else {
            p.location == Location::Query
        };
        if wanted {
            let ghost before = views(chosen@);
            chosen.push(ParamInfo { name: p.name.clone(), description: p.description.clone() });
            assert(views(chosen@) =~= before.push(
                ParamInfoView { name: p@.name, description: p@.description },
            ));
        }
        i += 1;
    }
    assert(model.take(i as int) =~= model);
    chosen
}

/// The parameters that a script substitutes in the path.
pub fn extract_path_parameters(operation: &Operation) -> (chosen: Vec<ParamInfo>)
    ensures
        views(chosen@) == chosen_parameters(operation@.parameters, true),
{
    choose_parameters(operation, true)
}

/// The parameters that a script appends to the URL as the query.
pub fn extract_query_parameters(operation: &Operation) -> (chosen: Vec<ParamInfo>)
    ensures
        views(chosen@) == chosen_parameters(operation@.parameters, false),
{
    choose_parameters(operation, false)
}

// ---------------------------------------------------------------------------
// Pieces of text
// ---------------------------------------------------------------------------
/// A value between a prefix and a suffix, or nothing where there is no value.
pub open spec fn optional(prefix: Seq<char>, value: Option<Seq<char>>, suffix: Seq<char>) -> Seq<
    char,
> {
    match value {
        Some(v) => prefix + v + suffix,
        None => Seq::empty(),
    }
}

fn append_optional(out: &mut String, prefix: &str, value: &Option<String>, suffix: &str)
    ensures
        final(out)@ == old(out)@ + optional(prefix@, view_of(*value), suffix@),
{
    match value {
        Some(v) => {
            out.append(prefix);
            out.append(v.as_str());
            out.append(suffix);
            assert(out@ =~= old(out)@ + (prefix@ + v@ + suffix@));
        },
        None => {
            assert(out@ =~= old(out)@ + Seq::<char>::empty());
        },
    }
}

fn append_wrapped(out: &mut String, prefix: &str, value: &str, suffix: &str)
    ensures
        final(out)@ == old(out)@ + (prefix@ + value@ + suffix@),
{
    out.append(prefix);
    out.append(value);
    out.append(suffix);
    assert(out@ =~= old(out)@ + (prefix@ + value@ + suffix@));
}

/// The path parameters followed by the query parameters.
fn all_parameters(path: &Vec<ParamInfo>, query: &Vec<ParamInfo>) -> (all: Vec<ParamInfo>)
    ensures
        views(all@) == views(path@) + views(query@),
{
    let mut all: Vec<ParamInfo> = Vec::new();
    let mut i: usize = 0;
    while i < path.len()
        invariant
            i <= path.len(),
            all.len() == i,
            forall|k: int| 0 <= k < i ==> all@[k]@ == path@[k]@,
        decreases path.len() - i,
    {
        all.push(ParamInfo { name: path[i].name.clone(), description: path[i].description.clone() });
        i += 1;
    }
    let mut j: usize = 0;
    while j < query.len()
        invariant
            j <= query.len(),
            all.len() == path.len() + j,
            forall|k: int| 0 <= k < path.len() ==> all@[k]@ == path@[k]@,
            forall|k: int| 0 <= k < j ==> all@[path.len() + k]@ == query@[k]@,
        decreases query.len() - j,
    {
        all.push(
            ParamInfo { name: query[j].name.clone(), description: query[j].description.clone() },
        );
        j += 1;
    }
    assert(views(all@) =~= views(path@) + views(query@));
    all
}

// ---------------------------------------------------------------------------
// The URL
// ---------------------------------------------------------------------------
/// The snake case of a name of ASCII is the name with every hyphen turned
/// into an underscore and `ascii_lower` of each character.
pub open spec fn ascii_snake_known(name: Seq<char>) -> bool {
    all_ascii(name) ==> snake_case(name) == replace_all(name, seq!['-'], seq!['_']).map_values(
        |c: char| ascii_lower(c),
    )
}

/// The snake case of every name of ASCII among the parameters is known.
pub open spec fn ascii_names_known(parameters: Seq<ParamInfoView>) -> bool {
    forall|i: int|
        0 <= i < parameters.len() ==> ascii_snake_known((#[trigger] parameters[i]).name)
}

/// How a script refers to the variable of a parameter: `${name}` in the
/// POSIX shell, `$name` in the Windows shell, the name in snake case.
pub open spec fn variable(name: Seq<char>, bash: bool) -> Seq<char> {
    if bash {
        "${"@ + snake_case(name) + "}"@
    } else {
        "$"@ + snake_case(name)
    }
}

/// How a path template marks the place of a parameter: `{name}`.
pub open spec fn placeholder(name: Seq<char>) -> Seq<char> {
    "{"@ + name + "}"@
}

/// The URL with the placeholder of each parameter, in turn, replaced by the
/// variable of the parameter.
pub open spec fn substituted(url: Seq<char>, parameters: Seq<ParamInfoView>, bash: bool) -> Seq<
    char,
>
    decreases parameters.len(),
{
    if parameters.len() == 0 {
        url
    } else {
        replace_all(
            substituted(url, parameters.drop_last(), bash),
            placeholder(parameters.last().name),
            variable(parameters.last().name, bash),
        )
    }
}

/// The query of a URL: `name=variable` for each parameter, joined by `&`.
pub open spec fn query_pairs(parameters: Seq<ParamInfoView>, bash: bool) -> Seq<char>
    decreases parameters.len(),
{
    if parameters.len() == 0 {
        Seq::empty()
    } else {
        let pair = parameters.last().name + "="@ + variable(parameters.last().name, bash);
        if parameters.len() == 1 {
            pair
        } else {
            query_pairs(parameters.drop_last(), bash) + "&"@ + pair
        }
    }
}

/// The URL of a request: the base URL and the path with the path parameters
/// substituted, then, where there are query parameters, `?` and the query.
pub open spec fn request_url(
    base: Seq<char>,
    path: Seq<char>,
    path_parameters: Seq<ParamInfoView>,
    query_parameters: Seq<ParamInfoView>,
    bash: bool,
) -> Seq<char> {
    let target = substituted(base + path, path_parameters, bash);
    if query_parameters.len() > 0 {
        target + "?"@ + query_pairs(query_parameters, bash)
    } else {
        target
    }
}

/// Substitution leaves a base URL without braces at the head of the URL.
pub proof fn lemma_substituted_keeps_base(
    base: Seq<char>,
    path: Seq<char>,
    parameters: Seq<ParamInfoView>,
    bash: bool,
)
    requires
        forall|i: int| 0 <= i < base.len() ==> base[i] != '{',
    ensures
        starts_with(substituted(base + path, parameters, bash), base),
        exists|tail: Seq<char>| substituted(base + path, parameters, bash) == base + tail,
    decreases parameters.len(),
{
    if parameters.len() == 0 {
        assert((base + path).take(base.len() as int) =~= base);
    } else {
        lemma_substituted_keeps_base(base, path, parameters.drop_last(), bash);
        let before = substituted(base + path, parameters.drop_last(), bash);
        let tail = choose|tail: Seq<char>| before == base + tail;
        let mark = placeholder(parameters.last().name);
        let reference = variable(parameters.last().name, bash);
        reveal_strlit("{");
        assert(mark[0] == '{');
        lemma_replace_keeps_prefix(base, tail, mark, reference);
        let after = base + replace_all(tail, mark, reference);
        assert(after.take(base.len() as int) =~= base);
    }
}

/// Without servers in the document and without an override in the settings,
/// the URL of the request of every operation, in either dialect, begins with
/// `http://localhost`.
pub proof fn law_urls_begin_at_localhost(
    document: DocumentView,
    settings: SettingsView,
    path: Seq<char>,
    operation: OperationView,
    bash: bool,
)
    requires
        document.servers.len() == 0,
        settings.base_url is None,
    ensures
        base_url(document, settings) == "http://localhost"@,
        starts_with(
            request_url(
                base_url(document, settings),
                path,
                chosen_parameters(operation.parameters, true),
                chosen_parameters(operation.parameters, false),
                bash,
            ),
            "http://localhost"@,
        ),
{
    reveal_strlit("http://localhost");
    let base = "http://localhost"@;
    let path_parameters = chosen_parameters(operation.parameters, true);
    let query_parameters = chosen_parameters(operation.parameters, false);
    lemma_substituted_keeps_base(base, path, path_parameters, bash);
    let target = substituted(base + path, path_parameters, bash);
    let url = request_url(base, path, path_parameters, query_parameters, bash);
    if query_parameters.len() > 0 {
        assert(url.take(base.len() as int) =~= target.take(base.len() as int));
    }
}

fn make_variable(name: &str, bash: bool) -> (reference: String)
    ensures
        reference@ == variable(name@, bash),
{
    let snake = to_snake_case(name);
    let mut reference = String::from_str(
        if bash {
            "${"
        } else {
            "$"
        },
    );
    reference.append(snake.as_str());
    if bash {
        reference.append("}");
    }
    reference
}

fn make_request_url(
    base: &str,
    path: &str,
    path_parameters: &Vec<ParamInfo>,
    query_parameters: &Vec<ParamInfo>,
    bash: bool,
) -> (url: String)
    ensures
        url@ == request_url(base@, path@, views(path_parameters@), views(query_parameters@), bash),
{
    let ghost pp = views(path_parameters@);
    let ghost qp = views(query_parameters@);
    let mut url = concat(base, path);
    let mut i: usize = 0;
    assert(pp.take(0) =~= Seq::empty());
    while i < path_parameters.len()
        invariant
            i <= path_parameters.len(),
            pp == views(path_parameters@),
            url@ == substituted(base@ + path@, pp.take(i as int), bash),
        decreases path_parameters.len() - i,
    {
        let p = &path_parameters[i];
        proof {
            assert(pp.take(i + 1).drop_last() =~= pp.take(i as int));
            assert(pp.take(i + 1).last() == p@);
        }
        let mut mark = concat("{", p.name.as_str());
        mark.append("}");
        let reference = make_variable(p.name.as_str(), bash);
        url = replace(url.as_str(), mark.as_str(), reference.as_str());
        i += 1;
    }
    assert(pp.take(i as int) =~= pp);
    if query_parameters.len() > 0 {
        url.append("?");
        let ghost target = substituted(base@ + path@, pp, bash);
        let mut j: usize = 0;
        assert(qp.take(0) =~= Seq::empty());
        while j < query_parameters.len()
            invariant
                j <= query_parameters.len(),
                qp == views(query_parameters@),
                url@ == target + "?"@ + query_pairs(qp.take(j as int), bash),
            decreases query_parameters.len() - j,
        {
            let p = &query_parameters[j];
            let ghost before = query_pairs(qp.take(j as int), bash);
            proof {
                assert(qp.take(j + 1).drop_last() =~= qp.take(j as int));
                assert(qp.take(j + 1).last() == p@);
            }
            if j > 0 {
                url.append("&");
            }
            url.append(p.name.as_str());
            url.append("=");
            let reference = make_variable(p.name.as_str(), bash);
            url.append(reference.as_str());
            proof {
                let pair = p@.name + "="@ + variable(p@.name, bash);
                if j > 0 {
                    assert(url@ =~= target + "?"@ + (before + "&"@ + pair));
                } else {
                    assert(before =~= Seq::empty());
                    assert(url@ =~= target + "?"@ + pair);
                }
            }
            j += 1;
        }
        assert(qp.take(j as int) =~= qp);
    }
    url
}

// ---------------------------------------------------------------------------
// The request body
// ---------------------------------------------------------------------------
/// The first content entry of a media type.
pub open spec fn content_of(content: Seq<MediaTypeView>, media_type: Seq<char>) -> Option<
    MediaTypeView,
>
    decreases content.len(),
{
    if content.len() == 0 {
        None
    } else if content[0].media_type == media_type {
        Some(content[0])
    } else {
        content_of(content.skip(1), media_type)
    }
}

/// The sample text for the schema of a request body. A reference is resolved
/// first, and `{}` stands where it resolves to nothing.
pub open spec fn body_sample(schema: SchemaView, document: DocumentView) -> Seq<char> {
    match schema {
        SchemaView::Reference { target } => match resolved(document, target) {
            Some(found) => sample_text(sample(found, document, MAX_SAMPLE_DEPTH as nat)),
            None => "{}"@,
        },
        _ => sample_text(sample(schema, document, MAX_SAMPLE_DEPTH as nat)),
    }
}

/// The body that a script sends: the sample of the schema that the request
/// body of the operation declares for the content type of the settings.
pub open spec fn body_text(
    operation: OperationView,
    settings: SettingsView,
    document: DocumentView,
) -> Option<Seq<char>> {
    match operation.request_body {
        Some(body) => match content_of(body.content, settings.content_type) {
            Some(entry) => match entry.schema {
                Some(schema) => Some(body_sample(schema, document)),
                None => None,
            },
            None => None,
        },
        None => None,
    }
}

fn find_content<'a>(content: &'a Vec<MediaType>, media_type: &str) -> (found: Option<
    &'a MediaType,
>)
    ensures
        match found {
            Some(entry) => content_of(views(content@), media_type@) == Some(entry@),
            None => content_of(views(content@), media_type@) is None,
        },
{
    let ghost model = views(content@);
    let mut i: usize = 0;
    assert(model.skip(0) =~= model);
    while i < content.len()
        invariant
            i <= content.len(),
            model == views(content@),
            content_of(model, media_type@) == content_of(model.skip(i as int), media_type@),
        decreases content.len() - i,
    {
        proof {
            assert(model.skip(i as int)[0] == model[i as int]);
            assert(model.skip(i as int).skip(1) =~= model.skip(i + 1));
        }
        if text_eq(content[i].media_type.as_str(), media_type) {
            return Some(&content[i]);
        }
        i += 1;
    }
    None
}

fn make_body_sample(schema: &Schema, document: &Document) -> (text: String)
    ensures
        text@ == body_sample(schema@, document@),
{
    match schema {
        Schema::Reference { target } => match resolve_schema_reference(
            document,
            target.as_str(),
        ) {
            Some(found) => generate_sample_from_schema(found, document),
            None => String::from_str("{}"),
        },
        _ => generate_sample_from_schema(schema, document),
    }
}

fn make_body_text(operation: &Operation, settings: &GeneratorSettings, document: &Document) -> (text:
    Option<String>)
    ensures
        view_of(text) == body_text(operation@, settings@, document@),
{
    match &operation.request_body {
        Some(body) => match find_content(&body.content, settings.content_type.as_str()) {
            Some(entry) => match &entry.schema {
                Some(schema) => Some(make_body_sample(schema, document)),
                None => None,
            },
            None => None,
        },
        None => None,
    }
}

// ---------------------------------------------------------------------------
// Scripts for the POSIX shell
// ---------------------------------------------------------------------------
/// A value between a prefix and a suffix.
pub open spec fn wrapped(prefix: Seq<char>, value: Seq<char>, suffix: Seq<char>) -> Seq<char> {
    prefix + value + suffix
}

/// The line of a comment that names the request: the verb and the path.
pub open spec fn request_line(prefix: Seq<char>, verb: Seq<char>, path: Seq<char>) -> Seq<char> {
    prefix + verb + " "@ + path + "\n"@
}

/// The comment at the head of a POSIX script: the request and, where the
/// operation has them, its summary and description.
pub open spec fn bash_header(verb: Seq<char>, path: Seq<char>, operation: OperationView) -> Seq<
    char,
> {
    "#\n"@ + request_line("# Request: "@, verb, path) + optional(
        "# Summary: "@,
        operation.summary,
        "\n"@,
    ) + optional("# Description: "@, operation.description, "\n"@) + "#\n\n"@
}

/// The declaration of one parameter in a POSIX script: its description as a
/// comment, and its variable set to the empty text.
pub open spec fn bash_declaration(parameter: ParamInfoView) -> Seq<char> {
    optional("# "@, parameter.description, "\n"@) + wrapped(
        ""@,
        snake_case(parameter.name),
        "=\"\"\n"@,
    )
}

/// The declarations of the parameters in a POSIX script, in their order.
pub open spec fn bash_declarations(parameters: Seq<ParamInfoView>) -> Seq<char>
    decreases parameters.len(),
{
    if parameters.len() == 0 {
        Seq::empty()
    } else {
        bash_declarations(parameters.drop_last()) + bash_declaration(parameters.last())
    }
}

/// The invocation in a POSIX script: the verb, the URL, the Accept and
/// Content-Type headers of the settings, the Authorization header where one
/// is configured, and the body where the operation has one.
pub open spec fn bash_command(
    verb: Seq<char>,
    url: Seq<char>,
    settings: SettingsView,
    body: Option<Seq<char>>,
) -> Seq<char> {
    wrapped("curl -X "@, verb, " "@) + wrapped("\""@, url, "\" \\\n"@) + wrapped(
        "  -H \"Accept: "@,
        settings.content_type,
        "\" \\\n"@,
    ) + wrapped("  -H \"Content-Type: "@, settings.content_type, "\" \\"@) + optional(
        "\n  -H \"Authorization: "@,
        settings.authorization_header,
        "\" \\"@,
    ) + optional("\n  -d '"@, body, "'"@) + "\n"@
}

/// The script of an operation for the POSIX shell.
pub open spec fn bash_script(
    verb: Seq<char>,
    path: Seq<char>,
    operation: OperationView,
    base: Seq<char>,
    settings: SettingsView,
    document: DocumentView,
) -> Seq<char> {
    let path_parameters = chosen_parameters(operation.parameters, true);
    let query_parameters = chosen_parameters(operation.parameters, false);
    let all = path_parameters + query_parameters;
    bash_header(verb, path, operation) + bash_declarations(all) + (if all.len() > 0 {
        "\n"@
    } else {
        ""@
    }) + bash_command(
        verb,
        request_url(base, path, path_parameters, query_parameters, true),
        settings,
        body_text(operation, settings, document),
    )
}

fn make_header(
    open: &str,
    request: &str,
    summary: &str,
    description: &str,
    close: &str,
    verb: &str,
    path: &str,
    operation: &Operation,
) -> (text: String)
    ensures
        text@ == open@ + request_line(request@, verb@, path@) + optional(
            summary@,
            operation@.summary,
            "\n"@,
        ) + optional(description@, operation@.description, "\n"@) + close@,
{
    let mut text = String::from_str(open);
    let mut line = concat(request, verb);
    line.append(" ");
    line.append(path);
    line.append("\n");
    text.append(line.as_str());
    append_optional(&mut text, summary, &operation.summary, "\n");
    append_optional(&mut text, description, &operation.description, "\n");
    text.append(close);
    text
}

fn make_bash_declarations(parameters: &Vec<ParamInfo>) -> (text: String)
    ensures
        text@ == bash_declarations(views(parameters@)),
        ascii_names_known(views(parameters@)),
{
    let ghost model = views(parameters@);
    let mut text = String::new();
    let mut i: usize = 0;
    assert(model.take(0) =~= Seq::empty());
    while i < parameters.len()
        invariant
            i <= parameters.len(),
            model == views(parameters@),
            text@ == bash_declarations(model.take(i as int)),
            forall|k: int| 0 <= k < i ==> ascii_snake_known((#[trigger] model[k]).name),
        decreases parameters.len() - i,
    {
        let p = &parameters[i];
        proof {
            assert(model.take(i + 1).drop_last() =~= model.take(i as int));
            assert(model.take(i + 1).last() == p@);
        }
        let ghost before = text@;
        let snake = to_snake_case(p.name.as_str());
        append_optional(&mut text, "# ", &p.description, "\n");
        append_wrapped(&mut text, "", snake.as_str(), "=\"\"\n");
        assert(text@ =~= before + bash_declaration(p@));
        i += 1;
    }
    assert(model.take(i as int) =~= model);
    text
}

fn make_bash_command(verb: &str, url: &str, settings: &GeneratorSettings, body: &Option<String>) -> (text:
    String)
    ensures
        text@ == bash_command(verb@, url@, settings@, view_of(*body)),
{
    let mut text = concat("curl -X ", verb);
    text.append(" ");
    append_wrapped(&mut text, "\"", url, "\" \\\n");
    append_wrapped(&mut text, "  -H \"Accept: ", settings.content_type.as_str(), "\" \\\n");
    append_wrapped(&mut text, "  -H \"Content-Type: ", settings.content_type.as_str(), "\" \\");
    append_optional(
        &mut text,
        "\n  -H \"Authorization: ",
        &settings.authorization_header,
        "\" \\",
    );
    append_optional(&mut text, "\n  -d '", body, "'");
    text.append("\n");
    text
}

/// Renders the script of an operation for the POSIX shell. The variable of a
/// parameter whose name is of ASCII is the name in lower case with every
/// hyphen turned into an underscore.
pub fn generate_bash_script(
    verb: &str,
    path: &str,
    operation: &Operation,
    base_url: &str,
    settings: &GeneratorSettings,
    document: &Document,
) -> (script: String)
    ensures
        script@ == bash_script(verb@, path@, operation@, base_url@, settings@, document@),
        ascii_names_known(
            chosen_parameters(operation@.parameters, true) + chosen_parameters(
                operation@.parameters,
                false,
            ),
        ),
{
    let path_parameters = extract_path_parameters(operation);
    let query_parameters = extract_query_parameters(operation);
    let all = all_parameters(&path_parameters, &query_parameters);
    let mut script = make_header(
        "#\n",
        "# Request: ",
        "# Summary: ",
        "# Description: ",
        "#\n\n",
        verb,
        path,
        operation,
    );
    let declarations = make_bash_declarations(&all);
    script.append(declarations.as_str());
    assert(views(all@).len() == all.len());
    script.append(
        if all.len() > 0 {
            "\n"
        } else {
            ""
        },
    );
    let url = make_request_url(base_url, path, &path_parameters, &query_parameters, true);
    let body = make_body_text(operation, settings, document);
    let command = make_bash_command(verb, url.as_str(), settings, &body);
    script.append(command.as_str());
    script
}

// ---------------------------------------------------------------------------
// Scripts for the Windows shell
// ---------------------------------------------------------------------------
/// The comment at the head of a Windows script.
pub open spec fn powershell_header(
    verb: Seq<char>,
    path: Seq<char>,
    operation: OperationView,
) -> Seq<char> {
    "<#\n"@ + request_line("  Request: "@, verb, path) + optional(
        "  Summary: "@,
        operation.summary,
        "\n"@,
    ) + optional("  Description: "@, operation.description, "\n"@) + "#>\n\n"@
}

/// The entry of one parameter in the parameter block of a Windows script:
/// its description as a comment, and its mandatory text variable.
pub open spec fn powershell_declaration(parameter: ParamInfoView) -> Seq<char> {
    optional("   <# "@, parameter.description, " #>\n"@) + wrapped(
        "   [Parameter(Mandatory=$True)]\n   [String] $"@,
        snake_case(parameter.name),
        "\n"@,
    )
}

/// The entries of the parameter block, separated by a line with a comma.
pub open spec fn powershell_entries(parameters: Seq<ParamInfoView>) -> Seq<char>
    decreases parameters.len(),
{
    if parameters.len() == 0 {
        Seq::empty()
    } else if parameters.len() == 1 {
        powershell_declaration(parameters.last())
    } else {
        powershell_entries(parameters.drop_last()) + ",\n"@ + powershell_declaration(
            parameters.last(),
        )
    }
}

/// The parameter block of a Windows script; nothing without parameters.
pub open spec fn powershell_block(parameters: Seq<ParamInfoView>) -> Seq<char> {
    if parameters.len() == 0 {
        Seq::empty()
    } else {
        wrapped("param(\n"@, powershell_entries(parameters), "\n)\n\n"@)
    }
}

/// The invocation in a Windows script.
pub open spec fn powershell_command(
    verb: Seq<char>,
    url: Seq<char>,
    settings: SettingsView,
    body: Option<Seq<char>>,
) -> Seq<char> {
    wrapped("curl -X "@, verb, " "@) + wrapped(""@, url, " `\n"@) + wrapped(
        "  -H 'Accept: "@,
        settings.content_type,
        "' `\n"@,
    ) + wrapped("  -H 'Content-Type: "@, settings.content_type, "' `\n"@) + optional(
        "  -H 'Authorization: "@,
        settings.authorization_header,
        "' `\n"@,
    ) + optional("  -d '"@, body, "'\n"@)
}

/// The script of an operation for the Windows shell.
pub open spec fn powershell_script(
    verb: Seq<char>,
    path: Seq<char>,
    operation: OperationView,
    base: Seq<char>,
    settings: SettingsView,
    document: DocumentView,
) -> Seq<char> {
    let path_parameters = chosen_parameters(operation.parameters, true);
    let query_parameters = chosen_parameters(operation.parameters, false);
    powershell_header(verb, path, operation) + powershell_block(
        path_parameters + query_parameters,
    ) + powershell_command(
        verb,
        request_url(base, path, path_parameters, query_parameters, false),
        settings,
        body_text(operation, settings, document),
    )
}

fn make_powershell_block(parameters: &Vec<ParamInfo>) -> (text: String)
    ensures
        text@ == powershell_block(views(parameters@)),
        ascii_names_known(views(parameters@)),
{
    let ghost model = views(parameters@);
    assert(model.len() == parameters.len());
    if parameters.len() == 0 {
        return String::new();
    }
    let mut entries = String::new();
    let mut i: usize = 0;
    assert(model.take(0) =~= Seq::empty());
    while i < parameters.len()
        invariant
            i <= parameters.len(),
            model == views(parameters@),
            entries@ == powershell_entries(model.take(i as int)),
            forall|k: int| 0 <= k < i ==> ascii_snake_known((#[trigger] model[k]).name),
        decreases parameters.len() - i,
    {
        let p = &parameters[i];
        proof {
            assert(model.take(i + 1).drop_last() =~= model.take(i as int));
            assert(model.take(i + 1).last() == p@);
        }
        let ghost before = entries@;
        let snake = to_snake_case(p.name.as_str());
        if i > 0 {
            entries.append(",\n");
        }
        append_optional(&mut entries, "   <# ", &p.description, " #>\n");
        append_wrapped(
            &mut entries,
            "   [Parameter(Mandatory=$True)]\n   [String] $",
            snake.as_str(),
            "\n",
        );
        proof {
            if i > 0 {
                assert(entries@ =~= before + ",\n"@ + powershell_declaration(p@));
            } else {
                assert(entries@ =~= powershell_declaration(p@));
            }
        }
        i += 1;
    }
    assert(model.take(i as int) =~= model);
    let mut text = concat("param(\n", entries.as_str());
    text.append("\n)\n\n");
    text
}

fn make_powershell_command(
    verb: &str,
    url: &str,
    settings: &GeneratorSettings,
    body: &Option<String>,
) -> (text: String)
    ensures
        text@ == powershell_command(verb@, url@, settings@, view_of(*body)),
{
    let mut text = concat("curl -X ", verb);
    text.append(" ");
    append_wrapped(&mut text, "", url, " `\n");
    append_wrapped(&mut text, "  -H 'Accept: ", settings.content_type.as_str(), "' `\n");
    append_wrapped(&mut text, "  -H 'Content-Type: ", settings.content_type.as_str(), "' `\n");
    append_optional(&mut text, "  -H 'Authorization: ", &settings.authorization_header, "' `\n");
    append_optional(&mut text, "  -d '", body, "'\n");
    text
}

/// Renders the script of an operation for the Windows shell. The variable of a
/// parameter whose name is of ASCII is the name in lower case with every
/// hyphen turned into an underscore.
pub fn generate_powershell_script(
    verb: &str,
    path: &str,
    operation: &Operation,
    base_url: &str,
    settings: &GeneratorSettings,
    document: &Document,
) -> (script: String)
    ensures
        script@ == powershell_script(verb@, path@, operation@, base_url@, settings@, document@),
        ascii_names_known(
            chosen_parameters(operation@.parameters, true) + chosen_parameters(
                operation@.parameters,
                false,
            ),
        ),
{
    let path_parameters = extract_path_parameters(operation);
    let query_parameters = extract_query_parameters(operation);
    let all = all_parameters(&path_parameters, &query_parameters);
    let mut script = make_header(
        "<#\n",
        "  Request: ",
        "  Summary: ",
        "  Description: ",
        "#>\n\n",
        verb,
        path,
        operation,
    );
    let block = make_powershell_block(&all);
    script.append(block.as_str());
    let url = make_request_url(base_url, path, &path_parameters, &query_parameters, false);
    let body = make_body_text(operation, settings, document);
    let command = make_powershell_command(verb, url.as_str(), settings, &body);
    script.append(command.as_str());
    script
}

// ---------------------------------------------------------------------------
// All scripts of a document
// ---------------------------------------------------------------------------
/// The file of one operation: its name, which is the capitalized name of the
/// operation with the extension of the dialect, and its script.
pub open spec fn script_file(
    verb: Verb,
    path: Seq<char>,
    operation: OperationView,
    document: DocumentView,
    settings: SettingsView,
) -> (Seq<char>, Seq<char>) {
    let name = capitalized(operation_name(verb.upper(), path, operation));
    let base = base_url(document, settings);
    if settings.generate_bash_scripts {
        (name + ".sh"@, bash_script(verb.upper(), path, operation, base, settings, document))
    } else {
        (
            name + ".ps1"@,
            powershell_script(verb.upper(), path, operation, base, settings, document),
        )
    }
}

/// The files of the operations of one path item, in the order of the verbs.
pub open spec fn item_files(
    path: Seq<char>,
    operations: Seq<(Verb, OperationView)>,
    document: DocumentView,
    settings: SettingsView,
) -> Seq<(Seq<char>, Seq<char>)> {
    operations.map_values(
        |bound: (Verb, OperationView)| script_file(bound.0, path, bound.1, document, settings),
    )
}

/// The files of the operations of the first entries of the path table.
pub open spec fn path_files(
    paths: Seq<(Seq<char>, PathItemView)>,
    document: DocumentView,
    settings: SettingsView,
) -> Seq<(Seq<char>, Seq<char>)>
    decreases paths.len(),
{
    if paths.len() == 0 {
        Seq::empty()
    } else {
        path_files(paths.drop_last(), document, settings) + item_files(
            paths.last().0,
            paths.last().1.operations(),
            document,
            settings,
        )
    }
}

/// The files that a document gives: one for every operation, in the order of
/// the path table and, within a path, of the verbs.
pub open spec fn generated_files(document: DocumentView, settings: SettingsView) -> Seq<
    (Seq<char>, Seq<char>),
> {
    path_files(document.paths, document, settings)
}

/// The number of operations of the first entries of the path table.
pub open spec fn operation_count(paths: Seq<(Seq<char>, PathItemView)>) -> nat
    decreases paths.len(),
{
    if paths.len() == 0 {
        0
    } else {
        operation_count(paths.drop_last()) + paths.last().1.operations().len()
    }
}

/// There is one file for each operation: none is skipped and none is made up.
pub proof fn lemma_one_file_per_operation(
    paths: Seq<(Seq<char>, PathItemView)>,
    document: DocumentView,
    settings: SettingsView,
)
    ensures
        path_files(paths, document, settings).len() == operation_count(paths),
    decreases paths.len(),
{
    if paths.len() > 0 {
        lemma_one_file_per_operation(paths.drop_last(), document, settings);
    }
}

/// What is known of the case of the characters of ASCII in the file of an
/// operation: the name of the file is the name of the operation as it is,
/// since its verb is in capitals; the upper case of a character of ASCII
/// that begins a word of the name is the one that `ascii_upper` gives; and
/// the variable of a parameter whose name is of ASCII is the name in lower
/// case with every hyphen turned into an underscore.
pub open spec fn ascii_known(verb: Verb, path: Seq<char>, operation: OperationView) -> bool {
    capitalized(operation_name(verb.upper(), path, operation)) == operation_name(
        verb.upper(),
        path,
        operation,
    ) && ascii_words_known(name_words(path, operation)) && ascii_names_known(
        chosen_parameters(operation.parameters, true) + chosen_parameters(
            operation.parameters,
            false,
        ),
    )
}

/// What is known of the case of the characters of ASCII holds of the file
/// of every operation of the path table.
pub open spec fn all_ascii_known(paths: Seq<(Seq<char>, PathItemView)>) -> bool {
    forall|i: int, verb: Verb|
        0 <= i < paths.len() && (#[trigger] paths[i].1.operation(verb)) is Some ==> ascii_known(
            verb,
            paths[i].0,
            paths[i].1.operation(verb)->0,
        )
}

/// A verb, as a request names it, begins with a capital letter of ASCII.
pub proof fn lemma_verb_in_capitals(verb: Verb)
    ensures
        verb.upper().len() > 0,
        (verb.upper()[0] as u32) < 128,
        ascii_upper(verb.upper()[0]) == verb.upper()[0],
{
    reveal_strlit("GET");
    reveal_strlit("PUT");
    reveal_strlit("POST");
    reveal_strlit("DELETE");
    reveal_strlit("OPTIONS");
    reveal_strlit("HEAD");
    reveal_strlit("PATCH");
    reveal_strlit("TRACE");
}

/// Renders the script of one operation as a file.
fn generate_file(
    verb: Verb,
    path: &str,
    operation: &Operation,
    base: &str,
    settings: &GeneratorSettings,
    document: &Document,
) -> (file: ScriptFile)
    requires
        base@ == base_url(document@, settings@),
    ensures
        file@ == script_file(verb, path@, operation@, document@, settings@),
        ascii_known(verb, path@, operation@),
{
    let name = generate_operation_name(verb.name(), path, operation);
    let mut filename = capitalize_first(name.as_str());
    proof {
        lemma_verb_in_capitals(verb);
        assert(name@[0] == verb.upper()[0]);
        assert(seq![name@[0]] + name@.skip(1) =~= name@);
    }
    if settings.generate_bash_scripts {
        filename.append(".sh");
        let content = generate_bash_script(verb.name(), path, operation, base, settings, document);
        ScriptFile::new(filename, content)
    } else {
        filename.append(".ps1");
        let content = generate_powershell_script(
            verb.name(),
            path,
            operation,
            base,
            settings,
            document,
        );
        ScriptFile::new(filename, content)
    }
}

/// Renders one script for every operation of the document, in the order of
/// the path table and, within a path, of the verbs. Of every file it is
/// known that its name is the name of the operation as it is, and how the
/// characters of ASCII in the name and in the variables are cased.
pub fn generate(document: &Document, settings: &GeneratorSettings) -> (result: Result<
    GeneratorResult,
    CurlGeneratorError,
>)
    ensures
        result is Ok,
        result->Ok_0@ == generated_files(document@, settings@),
        result->Ok_0@.len() == operation_count(document@.paths),
        all_ascii_known(document@.paths),
{
    let base = determine_base_url(document, settings);
    let order = verbs();
    let ghost paths = document@.paths;
    let mut files: Vec<ScriptFile> = Vec::new();
    let mut i: usize = 0;
    assert(paths.take(0) =~= Seq::empty());
    assert(views(files@) =~= Seq::empty());
    while i < document.paths.len()
        invariant
            i <= document.paths.len(),
            paths == views(document.paths@),
            order@ == verb_order(),
            base@ == base_url(document@, settings@),
            views(files@) == path_files(paths.take(i as int), document@, settings@),
            all_ascii_known(paths.take(i as int)),
        decreases document.paths.len() - i,
    {
        let entry = &document.paths[i];
        let ghost before = views(files@);
        let ghost item = entry.item@;
        proof {
            assert(paths.take(i + 1).drop_last() =~= paths.take(i as int));
            assert(paths.take(i + 1).last() == entry@);
            assert(item_files(entry.template@, item.operations_among(0), document@, settings@)
                =~= Seq::empty());
            assert(before + Seq::<(Seq<char>, Seq<char>)>::empty() =~= before);
        }
        let mut k: usize = 0;
        while k < order.len()
            invariant
                k <= order.len(),
                order@ == verb_order(),
                item == entry.item@,
                base@ == base_url(document@, settings@),
                views(files@) == before + item_files(
                    entry.template@,
                    item.operations_among(k as int),
                    document@,
                    settings@,
                ),
                forall|j: int|
                    0 <= j < k && item.operation(#[trigger] verb_order()[j]) is Some
                        ==> ascii_known(
                        verb_order()[j],
                        entry.template@,
                        item.operation(verb_order()[j])->0,
                    ),
            decreases order.len() - k,
        {
            let verb = order[k];
            let ghost listed = item.operations_among(k as int);
            match entry.item.operation(verb) {
                Some(operation) => {
                    let file = generate_file(
                        verb,
                        entry.template.as_str(),
                        operation,
                        base.as_str(),
                        settings,
                        document,
                    );
                    let ghost earlier = views(files@);
                    files.push(file);
                    assert(views(files@) =~= earlier.push(file@));
                    assert(item_files(
                        entry.template@,
                        listed.push((verb, operation@)),
                        document@,
                        settings@,
                    ) =~= item_files(entry.template@, listed, document@, settings@).push(file@));
                    assert(views(files@) =~= before + item_files(
                        entry.template@,
                        listed.push((verb, operation@)),
                        document@,
                        settings@,
                    ));
                },
                None => {},
            }
            k += 1;
        }
        proof {
            assert forall|j: int, verb: Verb|
                0 <= j < paths.take(i + 1).len() && (#[trigger] paths.take(i + 1)[j].1.operation(
                    verb,
                )) is Some implies ascii_known(
                verb,
                paths.take(i + 1)[j].0,
                paths.take(i + 1)[j].1.operation(verb)->0,
            ) by {
                if j < i {
                    assert(paths.take(i + 1)[j] == paths.take(i as int)[j]);
                } else {
                    assert(paths.take(i + 1)[j] == entry@);
                    let at: int = match verb {
                        Verb::Get => 0,
                        Verb::Put => 1,
                        Verb::Post => 2,
                        Verb::Delete => 3,
                        Verb::Options => 4,
                        Verb::Head => 5,
                        Verb::Patch => 6,
                        Verb::Trace => 7,
                    };
                    assert(verb_order()[at] == verb);
                }
            }
        }
        i += 1;
    }
    assert(paths.take(i as int) =~= paths);
    proof {
        lemma_one_file_per_operation(paths, document@, settings@);
    }
    Ok(GeneratorResult { files })
}

} // verus!
