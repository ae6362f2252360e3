//! References to a response of an operation of an OpenAPI file, and the facts
//! that such a document holds of it.
use crate::resolver::{FileRead, OpenapiResponse, ResolverError, ResolverFailure, ResponseFacts};
use crate::text::{
    distinct_texts, first_at, lemma_split_at_first, lemma_without_prefix, lemma_without_suffix,
    occurs_at, opt_text, same_text, split_at_first, split_once, strip_prefix, strip_suffix, text3, text5, texts,
    without_prefix, without_suffix,
};
use openapi3_parser::open_api::{MediaType, OpenApiSpec, Operation, PathItem, Response};
use vstd::prelude::*;

verus! {

/// The file, the API path, the method and the status that a reference of the
/// form `<path>#paths["<api-path>"].<method>.responses["<status>"]` names. The
/// file ends at the first `#`, the API path at the first `"].` behind it, and
/// the method at the first `.responses["` behind that.
pub open spec fn openapi_ref_parts(reference: Seq<char>) -> Option<
    (Seq<char>, Seq<char>, Seq<char>, Seq<char>),
> {
    match split_at_first(reference, "#"@) {
        Some((file, fragment)) => match without_prefix(fragment, "paths[\""@) {
            Some(rest) => match split_at_first(rest, "\"]."@) {
                Some((api_path, tail)) => match split_at_first(tail, ".responses[\""@) {
                    Some((method, last)) => match without_suffix(last, "\"]"@) {
                        Some(status) => Some((file, api_path, method, status)),
                        None => None,
                    },
                    None => None,
                },
                None => None,
            },
            None => None,
        },
        None => None,
    }
}

/// Reads a reference to a response of an operation of an OpenAPI file. Any
/// text of another form gives `None`.
pub fn parse_openapi_ref(reference: &str) -> (r: Option<(&str, &str, &str, &str)>)
    ensures
        match r {
            Some((file, api_path, method, status)) => openapi_ref_parts(reference@) == Some(
                (file@, api_path@, method@, status@),
            ),
            None => openapi_ref_parts(reference@) is None,
        },
{
    match split_once(reference, "#") {
        Some((file, fragment)) => match strip_prefix(fragment, "paths[\"") {
            Some(rest) => match split_once(rest, "\"].") {
                Some((api_path, tail)) => match split_once(tail, ".responses[\"") {
                    Some((method, last)) => match strip_suffix(last, "\"]") {
                        Some(status) => Some((file, api_path, method, status)),
                        None => None,
                    },
                    None => None,
                },
                None => None,
            },
            None => None,
        },
        None => None,
    }
}

/// One entry of a map of an OpenAPI document, with its key.
#[derive(Debug)]
pub struct Entry<T> {
    pub key: String,
    pub value: T,
}

/// What the rules read of a schema: its type and the names of its
/// properties.
#[derive(Debug)]
pub struct ApiSchema {
    pub data_type: Option<String>,
    pub properties: Option<Vec<String>>,
}

/// What the rules read of a response: the schema of each media type.
#[derive(Debug)]
pub struct ApiResponse {
    pub content: Option<Vec<Entry<Option<ApiSchema>>>>,
}

/// The responses of an operation, by status.
#[derive(Debug)]
pub struct ApiResponses {
    pub by_status: Option<Vec<Entry<ApiResponse>>>,
}

/// What the rules read of an operation: the names of its parameters, where
/// they have one, and its responses.
#[derive(Debug)]
pub struct ApiOperation {
    pub parameters: Option<Vec<Option<String>>>,
    pub responses: Option<ApiResponses>,
}

/// The operations of one path that a reference can name.
#[derive(Debug)]
pub struct ApiPathItem {
    pub get: Option<ApiOperation>,
    pub post: Option<ApiOperation>,
    pub put: Option<ApiOperation>,
    pub delete: Option<ApiOperation>,
    pub patch: Option<ApiOperation>,
}

/// What the rules read of an OpenAPI document: its paths.
#[derive(Debug)]
pub struct ApiDocument {
    pub paths: Option<Vec<Entry<ApiPathItem>>>,
}

/// An `ApiSchema` as contracts see it.
pub struct SchemaFacts {
    pub data_type: Option<Seq<char>>,
    pub properties: Option<Set<Seq<char>>>,
}

/// An `ApiResponse` as contracts see it.
pub struct AnswerFacts {
    pub content: Option<Map<Seq<char>, Option<SchemaFacts>>>,
}

/// An `ApiOperation` as contracts see it. The outer option of `responses`
/// says whether the operation has the section, the inner one whether the
/// section lists responses by status.
pub struct OperationFacts {
    pub parameters: Option<Seq<Option<Seq<char>>>>,
    pub responses: Option<Option<Map<Seq<char>, AnswerFacts>>>,
}

/// An `ApiPathItem` as contracts see it.
pub struct PathFacts {
    pub get: Option<OperationFacts>,
    pub post: Option<OperationFacts>,
    pub put: Option<OperationFacts>,
    pub delete: Option<OperationFacts>,
    pub patch: Option<OperationFacts>,
}

/// An `ApiDocument` as contracts see it.
pub struct DocumentFacts {
    pub paths: Option<Map<Seq<char>, PathFacts>>,
}

/// The position of the first of the entries that has the key.
pub open spec fn position<T>(entries: Seq<Entry<T>>, key: Seq<char>) -> Option<int>
    decreases entries.len(),
{
    if entries.len() == 0 {
        None
    } else if entries[0].key@ == key {
        Some(0int)
    } else {
        match position(entries.drop_first(), key) {
            Some(i) => Some(i + 1),
            None => None,
        }
    }
}

/// The map that a list of entries stands for: each key with what `f` makes of
/// the value of its first entry.
pub open spec fn keyed<T, U>(entries: Seq<Entry<T>>, f: spec_fn(T) -> U) -> Map<Seq<char>, U> {
    Map::new(
        |k: Seq<char>| position(entries, k) is Some,
        |k: Seq<char>| f(entries[position(entries, k).unwrap()].value),
    )
}

impl View for ApiSchema {
    type V = SchemaFacts;

    open spec fn view(&self) -> SchemaFacts {
        SchemaFacts {
            data_type: opt_text(self.data_type),
            properties: match self.properties {
                Some(names) => Some(texts(names@).to_set()),
                None => None,
            },
        }
    }
}

/// An optional schema, as contracts see it.
pub open spec fn schema_facts(schema: Option<ApiSchema>) -> Option<SchemaFacts> {
    match schema {
        Some(s) => Some(s@),
        None => None,
    }
}

impl View for ApiResponse {
    type V = AnswerFacts;

    open spec fn view(&self) -> AnswerFacts {
        AnswerFacts {
            content: match self.content {
                Some(entries) => Some(keyed(entries@, |s: Option<ApiSchema>| schema_facts(s))),
                None => None,
            },
        }
    }
}

impl View for ApiOperation {
    type V = OperationFacts;

    open spec fn view(&self) -> OperationFacts {
        OperationFacts {
            parameters: match self.parameters {
                Some(names) => Some(names@.map_values(|n: Option<String>| opt_text(n))),
                None => None,
            },
            responses: match self.responses {
                Some(section) => Some(
                    match section.by_status {
                        Some(entries) => Some(keyed(entries@, |r: ApiResponse| r@)),
                        None => None,
                    },
                ),
                None => None,
            },
        }
    }
}

/// An optional operation, as contracts see it.
pub open spec fn operation_facts(operation: Option<ApiOperation>) -> Option<OperationFacts> {
    match operation {
        Some(o) => Some(o@),
        None => None,
    }
}

impl View for ApiPathItem {
    type V = PathFacts;

    open spec fn view(&self) -> PathFacts {
        PathFacts {
            get: operation_facts(self.get),
            post: operation_facts(self.post),
            put: operation_facts(self.put),
            delete: operation_facts(self.delete),
            patch: operation_facts(self.patch),
        }
    }
}

impl View for ApiDocument {
    type V = DocumentFacts;

    open spec fn view(&self) -> DocumentFacts {
        DocumentFacts {
            paths: match self.paths {
                Some(entries) => Some(keyed(entries@, |p: ApiPathItem| p@)),
                None => None,
            },
        }
    }
}

/// An entry that no earlier entry of the same key precedes is the first of
/// its key.
pub proof fn lemma_position_at<T>(entries: Seq<Entry<T>>, key: Seq<char>, i: int)
    requires
        0 <= i < entries.len(),
        entries[i].key@ == key,
        forall|j: int| 0 <= j < i ==> entries[j].key@ != key,
    ensures
        position(entries, key) == Some(i),
    decreases i,
{
    if i > 0 {
        let rest = entries.drop_first();
        assert forall|j: int| 0 <= j < i - 1 implies rest[j].key@ != key by {
            assert(rest[j] == entries[j + 1]);
        }
        lemma_position_at(rest, key, i - 1);
    }
}

/// Where no entry has the key, none is the first of it.
pub proof fn lemma_position_none<T>(entries: Seq<Entry<T>>, key: Seq<char>)
    requires
        forall|j: int| 0 <= j < entries.len() ==> entries[j].key@ != key,
    ensures
        position(entries, key) is None,
    decreases entries.len(),
{
    if entries.len() > 0 {
        let rest = entries.drop_first();
        assert forall|j: int| 0 <= j < rest.len() implies rest[j].key@ != key by {
            assert(rest[j] == entries[j + 1]);
        }
        lemma_position_none(rest, key);
    }
}

/// The value of the first of the entries that has the key.
pub fn find_entry<'a, T>(entries: &'a Vec<Entry<T>>, key: &str) -> (r: Option<&'a T>)
    ensures
        match r {
            Some(value) => position(entries@, key@) is Some && *value == entries@[position(
                entries@,
                key@,
            ).unwrap()].value,
            None => position(entries@, key@) is None,
        },
{
    let mut i: usize = 0;
    while i < entries.len()
        invariant
            i <= entries.len(),
            forall|j: int| 0 <= j < i ==> entries@[j].key@ != key@,
        decreases entries.len() - i,
    {
        if same_text(entries[i].key.as_str(), key) {
            proof {
                lemma_position_at(entries@, key@, i as int);
            }
            return Some(&entries[i].value);
        }
        i += 1;
    }
    proof {
        lemma_position_none(entries@, key@);
    }
    None
}

/// What `serde_yaml` reads from a text as an OpenAPI document of
/// `openapi3_parser`, as far as the rules look at it, or the text of the
/// error with which it refuses the text.
pub uninterp spec fn openapi_facts(content: Seq<char>) -> Result<DocumentFacts, Seq<char>>;

/// `PathItem` of `openapi3_parser`, carried through as it is.
#[verifier::external_type_specification]
#[verifier::external_body]
pub struct ExPathItem(PathItem);

/// `Operation` of `openapi3_parser`, carried through as it is.
#[verifier::external_type_specification]
#[verifier::external_body]
pub struct ExOperation(Operation);

/// `Response` of `openapi3_parser`, carried through as it is.
#[verifier::external_type_specification]
#[verifier::external_body]
pub struct ExResponse(Response);

/// `MediaType` of `openapi3_parser`, carried through as it is.
#[verifier::external_type_specification]
#[verifier::external_body]
pub struct ExMediaType(MediaType);

/// Copies from a media type of `openapi3_parser` what the rules read: the
/// type of its schema and the names of the schema's properties.
#[verifier::external_body]
fn media_entry(e: (&String, &MediaType)) -> Entry<Option<ApiSchema>> {
    Entry {
        key: e.0.clone(),
        value: e.1.schema.as_ref().map(
            |s| ApiSchema {
                data_type: s.type_.clone(),
                properties: s.properties.as_ref().map(|p| p.keys().cloned().collect()),
            },
        ),
    }
}

/// Copies from a response of `openapi3_parser` what the rules read: its
/// content, by media type.
#[verifier::external_body]
fn response_entry(e: (&String, &Response)) -> Entry<ApiResponse> {
    Entry {
        key: e.0.clone(),
        value: ApiResponse {
            content: e.1.content.as_ref().map(|c| c.iter().map(media_entry).collect()),
        },
    }
}

/// Copies from an operation of `openapi3_parser` what the rules read: the
/// names of its parameters and its responses, by status.
#[verifier::external_body]
fn operation_model(o: &Operation) -> ApiOperation {
    ApiOperation {
        parameters: o.parameters.as_ref().map(|ps| ps.iter().map(|p| p.name.clone()).collect()),
        responses: o.responses.as_ref().map(
            |r| ApiResponses {
                by_status: r.responses.as_ref().map(|m| m.iter().map(response_entry).collect()),
            },
        ),
    }
}

/// Copies from a path of `openapi3_parser` the operations that a reference
/// can name.
#[verifier::external_body]
fn path_entry(e: (&String, &PathItem)) -> Entry<ApiPathItem> {
    Entry {
        key: e.0.clone(),
        value: ApiPathItem {
            get: e.1.get.as_ref().map(operation_model),
            post: e.1.post.as_ref().map(operation_model),
            put: e.1.put.as_ref().map(operation_model),
            delete: e.1.delete.as_ref().map(operation_model),
            patch: e.1.patch.as_ref().map(operation_model),
        },
    }
}

/// Calls `serde_yaml::from_str` for an `OpenApiSpec` of `openapi3_parser` and
/// copies what the rules read. Taken on trust: which keys each map of the
/// document holds and what stands under them depends on the text alone, as
/// does the text of the error; the order in which the entries of a map come
/// does not, and the contract says nothing of it.
#[verifier::external_body]
fn read_document(content: &str) -> (r: Result<ApiDocument, String>)
    ensures
        match r {
            Ok(doc) => openapi_facts(content@) == Ok::<DocumentFacts, Seq<char>>(doc@),
            Err(detail) => openapi_facts(content@) == Err::<DocumentFacts, Seq<char>>(detail@),
        },
{
    match serde_yaml::from_str::<OpenApiSpec>(content) {
        Ok(spec) => Ok(
            ApiDocument { paths: spec.paths.as_ref().map(|m| m.iter().map(path_entry).collect()) },
        ),
        Err(e) => Err(format!("{}", e)),
    }
}

/// The operation of a path that a method names. The outer option says
/// whether the method is one of the five that a reference can name.
pub open spec fn operation_of(item: PathFacts, method: Seq<char>) -> Option<Option<OperationFacts>> {
    if method == "get"@ {
        Some(item.get)
    } else if method == "post"@ {
        Some(item.post)
    } else if method == "put"@ {
        Some(item.put)
    } else if method == "delete"@ {
        Some(item.delete)
    } else if method == "patch"@ {
        Some(item.patch)
    } else {
        None
    }
}

/// The names of the given parameters that have one, in their order.
pub open spec fn parameter_names(parameters: Seq<Option<Seq<char>>>) -> Seq<Seq<char>>
    decreases parameters.len(),
{
    if parameters.len() == 0 {
        Seq::empty()
    } else {
        let before = parameter_names(parameters.drop_last());
        match parameters.last() {
            Some(name) => before.push(name),
            None => before,
        }
    }
}

/// The names of the parameters of an operation, in their order.
pub open spec fn operation_parameters(operation: OperationFacts) -> Seq<Seq<char>> {
    match operation.parameters {
        Some(parameters) => parameter_names(parameters),
        None => Seq::empty(),
    }
}

/// The fields that a schema shows: the names of its properties where its type
/// is `object`. Schemas below it are not looked at.
pub open spec fn schema_fields(schema: SchemaFacts) -> Set<Seq<char>> {
    if schema.data_type == Some("object"@) {
        match schema.properties {
            Some(names) => names,
            None => Set::empty(),
        }
    } else {
        Set::empty()
    }
}

/// The fields of a response: those of the schema of its `application/json`
/// content.
pub open spec fn response_fields(answer: AnswerFacts) -> Set<Seq<char>> {
    match answer.content {
        Some(content) => if content.contains_key("application/json"@) {
            match content["application/json"@] {
                Some(schema) => schema_fields(schema),
                None => Set::empty(),
            }
        } else {
            Set::empty()
        },
        None => Set::empty(),
    }
}

/// The failure that reports a missing element.
pub open spec fn not_found(what: Seq<char>) -> Result<ResponseFacts, ResolverFailure> {
    Err(ResolverFailure::NotFound(what))
}

/// What a document says of the response `status` of the operation `method`
/// of `path`: the fields of the response and the parameters of the
/// operation, or which element on the way to them the document lacks.
pub open spec fn operation_response(
    doc: DocumentFacts,
    path: Seq<char>,
    method: Seq<char>,
    status: Seq<char>,
) -> Result<ResponseFacts, ResolverFailure> {
    match doc.paths {
        None => not_found("OpenAPI に paths が定義されていません"@),
        Some(paths) => if !paths.contains_key(path) {
            not_found("パス "@ + path + " が見つかりません"@)
        } else {
            match operation_of(paths[path], method) {
                None => not_found("メソッド "@ + method + " は未対応です"@),
                Some(None) => not_found(
                    "パス "@ + path + " に メソッド "@ + method + " が定義されていません"@,
                ),
                Some(Some(operation)) => match operation.responses {
                    None => not_found(
                        "パス "@ + path + " ."@ + method + " に responses が定義されていません"@,
                    ),
                    Some(None) => not_found(
                        "パス "@ + path + " ."@ + method + " に レスポンスが定義されていません"@,
                    ),
                    Some(Some(by_status)) => if !by_status.contains_key(status) {
                        not_found(
                            "パス "@ + path + " ."@ + method + " のレスポンス "@ + status
                                + " が見つかりません"@,
                        )
                    } else {
                        Ok(
                            ResponseFacts {
                                fields: response_fields(by_status[status]),
                                parameters: operation_parameters(operation).to_set(),
                            },
                        )
                    },
                },
            }
        },
    }
}

/// The names of the parameters of the operation `method` of `path`, in the
/// order in which the document lists them.
pub open spec fn named_parameters(doc: DocumentFacts, path: Seq<char>, method: Seq<char>) -> Seq<
    Seq<char>,
> {
    match doc.paths {
        Some(paths) => if paths.contains_key(path) {
            match operation_of(paths[path], method) {
                Some(Some(operation)) => operation_parameters(operation),
                _ => Seq::empty(),
            }
        } else {
            Seq::empty()
        },
        None => Seq::empty(),
    }
}

/// The outcome of a resolution of a response, as contracts see it.
pub open spec fn response_outcome(r: Result<OpenapiResponse, ResolverError>) -> Result<
    ResponseFacts,
    ResolverFailure,
> {
    match r {
        Ok(response) => Ok(response@),
        Err(e) => Err(e@),
    }
}

/// The names of the properties of a schema of type `object`, each once.
pub fn extract_fields_from_schema(schema: &ApiSchema) -> (fields: Vec<String>)
    ensures
        texts(fields@).to_set() == schema_fields(schema@),
        texts(fields@).no_duplicates(),
{
    let is_object = match &schema.data_type {
        Some(name) => same_text(name.as_str(), "object"),
        None => false,
    };
    if is_object {
        match &schema.properties {
            Some(names) => {
                return distinct_texts(names);
            },
            None => {},
        }
    }
    let fields: Vec<String> = Vec::new();
    proof {
        assert(texts(fields@).to_set() =~= Set::<Seq<char>>::empty());
    }
    fields
}

/// The names of the fields of a response, each once: the properties of the
/// schema of its `application/json` content.
pub fn extract_response_fields(response: &ApiResponse) -> (fields: Vec<String>)
    ensures
        texts(fields@).to_set() == response_fields(response@),
        texts(fields@).no_duplicates(),
{
    match &response.content {
        Some(content) => match find_entry(content, "application/json") {
            Some(slot) => match slot {
                Some(schema) => {
                    return extract_fields_from_schema(schema);
                },
                None => {},
            },
            None => {},
        },
        None => {},
    }
    let fields: Vec<String> = Vec::new();
    proof {
        assert(texts(fields@).to_set() =~= Set::<Seq<char>>::empty());
    }
    fields
}

/// The names of the parameters of an operation that have one, in their
/// order.
pub fn extract_parameters(operation: &ApiOperation) -> (names: Vec<String>)
    ensures
        texts(names@) == operation_parameters(operation@),
{
    let mut names: Vec<String> = Vec::new();
    match &operation.parameters {
        Some(parameters) => {
            let ghost all = parameters@.map_values(|n: Option<String>| opt_text(n));
            let mut i: usize = 0;
            proof {
                assert(texts(names@) =~= parameter_names(all.take(0)));
            }
            while i < parameters.len()
                invariant
                    i <= parameters.len(),
                    all == parameters@.map_values(|n: Option<String>| opt_text(n)),
                    texts(names@) == parameter_names(all.take(i as int)),
                decreases parameters.len() - i,
            {
                proof {
                    assert(all.take(i + 1).drop_last() =~= all.take(i as int));
                    assert(all.take(i + 1).last() == opt_text(parameters@[i as int]));
                }
                match &parameters[i] {
                    Some(name) => {
                        let copy = name.clone();
                        proof {
                            assert(texts(names@.push(copy)) =~= texts(names@).push(name@));
                        }
                        names.push(copy);
                    },
                    None => {},
                }
                i += 1;
            }
            proof {
                assert(all.take(parameters.len() as int) =~= all);
            }
        },
        None => {
            proof {
                assert(texts(names@) =~= Seq::<Seq<char>>::empty());
            }
        },
    }
    names
}

/// What a document says of one response of one operation: the names of the
/// fields of the response and of the parameters of the operation. Where the
/// document lacks the path, the operation, the responses or the status, the
/// error says which.
pub fn extract_operation(doc: &ApiDocument, path: &str, method: &str, status_code: &str) -> (r:
    Result<OpenapiResponse, ResolverError>)
    ensures
        response_outcome(r) == operation_response(doc@, path@, method@, status_code@),
        r matches Ok(response) ==> texts(response.parameters@) == named_parameters(
            doc@,
            path@,
            method@,
        ),
        r matches Ok(response) ==> texts(response.fields@).no_duplicates(),
{
    let paths = match &doc.paths {
        Some(paths) => paths,
        None => {
            return Err(
                ResolverError::NotFound(String::from_str("OpenAPI に paths が定義されていません")),
            );
        },
    };
    let item = match find_entry(paths, path) {
        Some(item) => item,
        None => {
            return Err(ResolverError::NotFound(text3("パス ", path, " が見つかりません")));
        },
    };
    let slot = if same_text(method, "get") {
        &item.get
    } else if same_text(method, "post") {
        &item.post
    } else if same_text(method, "put") {
        &item.put
    } else if same_text(method, "delete") {
        &item.delete
    } else if same_text(method, "patch") {
        &item.patch
    } else {
        return Err(ResolverError::NotFound(text3("メソッド ", method, " は未対応です")));
    };
    assert(operation_of(item@, method@) == Some(operation_facts(*slot)));
    let operation = match slot {
        Some(operation) => operation,
        None => {
            return Err(
                ResolverError::NotFound(
                    text5("パス ", path, " に メソッド ", method, " が定義されていません"),
                ),
            );
        },
    };
    let parameters = extract_parameters(operation);
    let section = match &operation.responses {
        Some(section) => section,
        None => {
            return Err(
                ResolverError::NotFound(
                    text5("パス ", path, " .", method, " に responses が定義されていません"),
                ),
            );
        },
    };
    let by_status = match &section.by_status {
        Some(by_status) => by_status,
        None => {
            return Err(
                ResolverError::NotFound(
                    text5("パス ", path, " .", method, " に レスポンスが定義されていません"),
                ),
            );
        },
    };
    let response = match find_entry(by_status, status_code) {
        Some(response) => response,
        None => {
            let mut what = text5("パス ", path, " .", method, " のレスポンス ");
            what.append(status_code);
            what.append(" が見つかりません");
            return Err(ResolverError::NotFound(what));
        },
    };
    let fields = extract_response_fields(response);
    Ok(OpenapiResponse { fields, parameters })
}

/// What an OpenAPI text gives for one response of one operation, from what
/// reading the text as a document gives: what the document says, or a parse
/// error that names the source.
pub open spec fn openapi_outcome(
    facts: Result<DocumentFacts, Seq<char>>,
    source: Seq<char>,
    path: Seq<char>,
    method: Seq<char>,
    status: Seq<char>,
) -> Result<ResponseFacts, ResolverFailure> {
    match facts {
        Ok(doc) => operation_response(doc, path, method, status),
        Err(detail) => Err(ResolverFailure::OpenapiParseError(source, detail)),
    }
}

/// The fields of one response of one operation and the parameters of that
/// operation, read from an OpenAPI text. `source` names the text in the
/// error that a text which is no OpenAPI document gives.
pub fn parse_openapi_content(
    content: &str,
    source: &str,
    path: &str,
    method: &str,
    status_code: &str,
) -> (r: Result<OpenapiResponse, ResolverError>)
    ensures
        response_outcome(r) == openapi_outcome(
            openapi_facts(content@),
            source@,
            path@,
            method@,
            status_code@,
        ),
        r matches Ok(response) ==> openapi_facts(content@) is Ok && texts(response.parameters@)
            == named_parameters(openapi_facts(content@)->Ok_0, path@, method@),
        r matches Ok(response) ==> texts(response.fields@).no_duplicates(),
{
    match read_document(content) {
        Ok(doc) => extract_operation(&doc, path, method, status_code),
        Err(detail) => Err(ResolverError::OpenapiParseError(String::from_str(source), detail)),
    }
}

/// What the read of an OpenAPI file gives for one response of one operation:
/// what its text gives, or an I/O error with the path and the cause.
pub open spec fn openapi_read_outcome(
    read: FileRead,
    path: Seq<char>,
    method: Seq<char>,
    status: Seq<char>,
) -> Result<ResponseFacts, ResolverFailure> {
    match read.content {
        Ok(text) => openapi_outcome(openapi_facts(text@), read.path@, path, method, status),
        Err(cause) => Err(ResolverFailure::IoError(read.path@, cause@)),
    }
}

/// One response of one operation of an OpenAPI file, from what reading the
/// file gave.
pub fn resolve_openapi(read: &FileRead, path: &str, method: &str, status_code: &str) -> (r: Result<
    OpenapiResponse,
    ResolverError,
>)
    ensures
        response_outcome(r) == openapi_read_outcome(*read, path@, method@, status_code@),
        r matches Ok(response) ==> texts(response.fields@).no_duplicates(),
{
    match &read.content {
        Ok(text) => parse_openapi_content(
            text.as_str(),
            read.path.as_str(),
            path,
            method,
            status_code,
        ),
        Err(cause) => Err(ResolverError::IoError(read.path.clone(), cause.clone())),
    }
}

/// The text of a reference with the given parts.
pub open spec fn openapi_ref_text(
    file: Seq<char>,
    api_path: Seq<char>,
    method: Seq<char>,
    status: Seq<char>,
) -> Seq<char> {
    file + "#"@ + "paths[\""@ + api_path + "\"]."@ + method + ".responses[\""@ + status + "\"]"@
}

/// The parts of a reference stand where the form of a reference puts them:
/// the `"].` behind the API path is the first one behind `paths["`, and the
/// `.responses["` behind the method is the first one behind that.
pub open spec fn openapi_ref_splits(api_path: Seq<char>, method: Seq<char>, status: Seq<char>) -> bool {
    &&& first_at(
        api_path + "\"]."@ + method + ".responses[\""@ + status + "\"]"@,
        "\"]."@,
        api_path.len() as int,
    )
    &&& first_at(method + ".responses[\""@ + status + "\"]"@, ".responses[\""@, method.len() as int)
}

/// The parts that a reference names make up the reference.
proof fn lemma_openapi_ref_parts(
    reference: Seq<char>,
    file: Seq<char>,
    api_path: Seq<char>,
    method: Seq<char>,
    status: Seq<char>,
)
    requires
        openapi_ref_parts(reference) == Some((file, api_path, method, status)),
    ensures
        reference == openapi_ref_text(file, api_path, method, status),
        !file.contains('#'),
        openapi_ref_splits(api_path, method, status),
{
    reveal_strlit("#");
    let hash = "#"@;
    assert(hash =~= seq!['#']);
    let open = "paths[\""@;
    let dot = "\"]."@;
    let mid = ".responses[\""@;
    let close = "\"]"@;
    let fragment = split_at_first(reference, hash).unwrap().1;
    let inner = without_prefix(fragment, open).unwrap();
    let tail = split_at_first(inner, dot).unwrap().1;
    let last = split_at_first(tail, mid).unwrap().1;
    lemma_split_at_first(reference, hash, file, fragment);
    lemma_without_prefix(fragment, open, inner);
    lemma_split_at_first(inner, dot, api_path, tail);
    lemma_split_at_first(tail, mid, method, last);
    lemma_without_suffix(last, close, status);
    assert(last == status + close);
    assert(tail == method + mid + last);
    assert(tail =~= method + mid + status + close);
    assert(inner == api_path + dot + tail);
    assert(inner =~= api_path + dot + method + mid + status + close);
    assert(fragment == open + inner);
    assert(reference == file + hash + fragment);
    assert(reference =~= file + hash + open + api_path + dot + method + mid + status + close);
    if file.contains('#') {
        let j = choose|j: int| 0 <= j < file.len() && file[j] == '#';
        assert(reference.subrange(j, j + 1) =~= hash);
        assert(occurs_at(reference, hash, j));
    }
}

/// A text that is made up of parts in the form of a reference names them.
proof fn lemma_openapi_ref_text(
    file: Seq<char>,
    api_path: Seq<char>,
    method: Seq<char>,
    status: Seq<char>,
)
    requires
        !file.contains('#'),
        openapi_ref_splits(api_path, method, status),
    ensures
        openapi_ref_parts(openapi_ref_text(file, api_path, method, status)) == Some(
            (file, api_path, method, status),
        ),
{
    reveal_strlit("#");
    let hash = "#"@;
    assert(hash =~= seq!['#']);
    let open = "paths[\""@;
    let dot = "\"]."@;
    let mid = ".responses[\""@;
    let close = "\"]"@;
    let reference = openapi_ref_text(file, api_path, method, status);
    let last = status + close;
    let tail = method + mid + last;
    let inner = api_path + dot + tail;
    let fragment = open + inner;
    assert(tail =~= method + mid + status + close);
    assert(inner =~= api_path + dot + method + mid + status + close);
    assert(reference =~= file + hash + fragment);
    assert(reference.subrange(file.len() as int, file.len() as int + 1) =~= hash);
    assert forall|j: int| 0 <= j < file.len() implies !occurs_at(reference, hash, j) by {
        if occurs_at(reference, hash, j) {
            assert(reference.subrange(j, j + 1)[0] == '#');
            assert(file[j] == '#');
        }
    }
    assert(first_at(reference, hash, file.len() as int));
    lemma_split_at_first(reference, hash, file, fragment);
    lemma_without_prefix(fragment, open, inner);
    lemma_split_at_first(inner, dot, api_path, tail);
    lemma_split_at_first(tail, mid, method, last);
    lemma_without_suffix(last, close, status);
}

/// A text names a file, an API path, a method and a status exactly where it
/// is `<file>#paths["<api-path>"].<method>.responses["<status>"]`, the file
/// holds no `#`, the `"].` behind the API path is the first one behind
/// `paths["`, and the `.responses["` behind the method is the first one
/// behind that.
pub proof fn law_openapi_ref_form(
    reference: Seq<char>,
    file: Seq<char>,
    api_path: Seq<char>,
    method: Seq<char>,
    status: Seq<char>,
)
    ensures
        openapi_ref_parts(reference) == Some((file, api_path, method, status)) <==> (reference
            == openapi_ref_text(file, api_path, method, status) && !file.contains('#')
            && openapi_ref_splits(api_path, method, status)),
{
    if openapi_ref_parts(reference) == Some((file, api_path, method, status)) {
        lemma_openapi_ref_parts(reference, file, api_path, method, status);
    }
    if reference == openapi_ref_text(file, api_path, method, status) && !file.contains('#')
        && openapi_ref_splits(api_path, method, status) {
        lemma_openapi_ref_text(file, api_path, method, status);
    }
}

} // verus!
