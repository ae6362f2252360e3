//! The findings of each rule: its name and the wording of its message.
use crate::text::{text3, text5};
use crate::validator::{Diagnostic, ValidationError};
use vstd::prelude::*;

verus! {

/// A table that the mapping uses is not among the imported ones.
pub open spec fn missing_import(table: Seq<char>) -> Diagnostic {
    Diagnostic::Rule(
        "import.dbml"@,
        "テーブル '"@ + table + "' が import.dbml に含まれていません"@,
    )
}

pub fn missing_import_error(table: &str) -> (e: ValidationError)
    ensures
        e@ == missing_import(table@),
{
    ValidationError::Rule(
        String::from_str("import.dbml"),
        text3("テーブル '", table, "' が import.dbml に含まれていません"),
    )
}

/// A table is joined a second time on another condition, and neither join
/// gives it an alias.
pub open spec fn alias_required(table: Seq<char>) -> Diagnostic {
    Diagnostic::Rule(
        "join.alias"@,
        "テーブル '"@ + table
            + "' が異なる結合条件で複数参照されていますが、alias が指定されていません"@,
    )
}

pub fn alias_required_error(table: &str) -> (e: ValidationError)
    ensures
        e@ == alias_required(table@),
{
    ValidationError::Rule(
        String::from_str("join.alias"),
        text3(
            "テーブル '",
            table,
            "' が異なる結合条件で複数参照されていますが、alias が指定されていません",
        ),
    )
}

/// A join condition names a table that is not among the imported ones. `rule`
/// is `join.on` for a join and `join_chain.on` for a step of a chain.
pub open spec fn unknown_join_table(rule: Seq<char>, table: Seq<char>) -> Diagnostic {
    Diagnostic::Rule(
        rule,
        rule + " で参照されるテーブル '"@ + table + "' が import.dbml に含まれていません"@,
    )
}

pub fn unknown_join_table_error(rule: &str, table: &str) -> (e: ValidationError)
    ensures
        e@ == unknown_join_table(rule@, table@),
{
    let mut message = text3(rule, " で参照されるテーブル '", table);
    message.append("' が import.dbml に含まれていません");
    ValidationError::Rule(String::from_str(rule), message)
}

/// A field is aggregated without a `group_by`.
pub open spec fn group_by_missing(field: Seq<char>, kind: Seq<char>) -> Diagnostic {
    Diagnostic::Warning(
        "aggregate.group_by"@,
        "フィールド '"@ + field + "' に aggregate ("@ + kind
            + ") が使われていますが group_by が指定されていません。省略時はルートテーブルの主キーが自動適用されます"@,
    )
}

pub fn group_by_missing_warning(field: &str, kind: &str) -> (e: ValidationError)
    ensures
        e@ == group_by_missing(field@, kind@),
{
    ValidationError::Warning(
        String::from_str("aggregate.group_by"),
        text5(
            "フィールド '",
            field,
            "' に aggregate (",
            kind,
            ") が使われていますが group_by が指定されていません。省略時はルートテーブルの主キーが自動適用されます",
        ),
    )
}

/// The `source_table` of an array field is not the table that its joins
/// reach.
pub open spec fn source_table_mismatch(
    field: Seq<char>,
    declared: Seq<char>,
    actual: Seq<char>,
) -> Diagnostic {
    Diagnostic::Rule(
        "source_table"@,
        "配列フィールド '"@ + field + "' の source_table '"@ + declared
            + "' がjoin の実際のソーステーブル '"@ + actual + "' と一致しません"@,
    )
}

pub fn source_table_mismatch_error(field: &str, declared: &str, actual: &str) -> (e:
    ValidationError)
    ensures
        e@ == source_table_mismatch(field@, declared@, actual@),
{
    let mut message = text5(
        "配列フィールド '",
        field,
        "' の source_table '",
        declared,
        "' がjoin の実際のソーステーブル '",
    );
    message.append(actual);
    message.append("' と一致しません");
    ValidationError::Rule(String::from_str("source_table"), message)
}

/// A condition of a filter names a parameter that no filter declares.
pub open spec fn undeclared_param(param: Seq<char>) -> Diagnostic {
    Diagnostic::Rule(
        "filters.condition"@,
        "condition で使用されるパラメータ ':"@ + param
            + "' が filters[].param で宣言されていません"@,
    )
}

pub fn undeclared_param_error(param: &str) -> (e: ValidationError)
    ensures
        e@ == undeclared_param(param@),
{
    ValidationError::Rule(
        String::from_str("filters.condition"),
        text3(
            "condition で使用されるパラメータ ':",
            param,
            "' が filters[].param で宣言されていません",
        ),
    )
}

/// The default column of a sort is not among the allowed ones.
pub open spec fn default_column_not_allowed(column: Seq<char>) -> Diagnostic {
    Diagnostic::Rule(
        "filters.allowed_columns"@,
        "ORDER_BY の default_column '"@ + column + "' が allowed_columns リスト外です"@,
    )
}

pub fn default_column_not_allowed_error(column: &str) -> (e: ValidationError)
    ensures
        e@ == default_column_not_allowed(column@),
{
    ValidationError::Rule(
        String::from_str("filters.allowed_columns"),
        text3("ORDER_BY の default_column '", column, "' が allowed_columns リスト外です"),
    )
}

/// The target of a transform is no field of the response mapping.
pub open spec fn unknown_target(target: Seq<char>) -> Diagnostic {
    Diagnostic::Rule(
        "transforms.target"@,
        "transform の target '"@ + target
            + "' が response_mapping のいずれかの field に対応していません"@,
    )
}

pub fn unknown_target_error(target: &str) -> (e: ValidationError)
    ensures
        e@ == unknown_target(target@),
{
    ValidationError::Rule(
        String::from_str("transforms.target"),
        text3(
            "transform の target '",
            target,
            "' が response_mapping のいずれかの field に対応していません",
        ),
    )
}

/// A condition of a transform tests a request parameter, and no parameters
/// are known to check it against.
pub open spec fn param_unchecked(target: Seq<char>) -> Diagnostic {
    Diagnostic::Warning(
        "transforms.condition.param"@,
        "transform '"@ + target
            + "' の condition に param が使われていますが、OpenAPI解析が未実装のためパラメータの存在確認はスキップされます"@,
    )
}

pub fn param_unchecked_warning(target: &str) -> (e: ValidationError)
    ensures
        e@ == param_unchecked(target@),
{
    ValidationError::Warning(
        String::from_str("transforms.condition.param"),
        text3(
            "transform '",
            target,
            "' の condition に param が使われていますが、OpenAPI解析が未実装のためパラメータの存在確認はスキップされます",
        ),
    )
}

/// A condition of a transform tests a parameter that the operation does not
/// have.
pub open spec fn unknown_param(target: Seq<char>, param: Seq<char>) -> Diagnostic {
    Diagnostic::Rule(
        "transforms.condition.param"@,
        "transform "@ + target + " の condition.param "@ + param
            + " がOpenAPIパラメータに存在しません"@,
    )
}

pub fn unknown_param_error(target: &str, param: &str) -> (e: ValidationError)
    ensures
        e@ == unknown_param(target@, param@),
{
    ValidationError::Rule(
        String::from_str("transforms.condition.param"),
        text5(
            "transform ",
            target,
            " の condition.param ",
            param,
            " がOpenAPIパラメータに存在しません",
        ),
    )
}

/// A field of the response mapping is no property of the response.
pub open spec fn unknown_field(field: Seq<char>) -> Diagnostic {
    Diagnostic::Rule(
        "response_mapping.field"@,
        "フィールド "@ + field + " がOpenAPIレスポンスのプロパティに存在しません"@,
    )
}

pub fn unknown_field_error(field: &str) -> (e: ValidationError)
    ensures
        e@ == unknown_field(field@),
{
    ValidationError::Rule(
        String::from_str("response_mapping.field"),
        text3("フィールド ", field, " がOpenAPIレスポンスのプロパティに存在しません"),
    )
}

/// A source names a column that its table does not have.
pub open spec fn unknown_column(column: Seq<char>, table: Seq<char>) -> Diagnostic {
    Diagnostic::Rule(
        "response_mapping.source"@,
        "カラム "@ + column + " がテーブル "@ + table + " に存在しません"@,
    )
}

pub fn unknown_column_error(column: &str, table: &str) -> (e: ValidationError)
    ensures
        e@ == unknown_column(column@, table@),
{
    ValidationError::Rule(
        String::from_str("response_mapping.source"),
        text5("カラム ", column, " がテーブル ", table, " に存在しません"),
    )
}

/// The OpenAPI reference could not be resolved; `cause` reports why.
pub open spec fn openapi_unresolved(cause: Seq<char>) -> Diagnostic {
    Diagnostic::Warning("import.openapi"@, "OpenAPI解決に失敗しました: "@ + cause)
}

pub fn openapi_unresolved_warning(cause: &str) -> (e: ValidationError)
    ensures
        e@ == openapi_unresolved(cause@),
{
    let mut message = String::from_str("OpenAPI解決に失敗しました: ");
    message.append(cause);
    ValidationError::Warning(String::from_str("import.openapi"), message)
}

/// A DBML reference could not be resolved; `cause` reports why.
pub open spec fn dbml_unresolved(cause: Seq<char>) -> Diagnostic {
    Diagnostic::Warning("import.dbml"@, "DBML解決に失敗しました: "@ + cause)
}

pub fn dbml_unresolved_warning(cause: &str) -> (e: ValidationError)
    ensures
        e@ == dbml_unresolved(cause@),
{
    let mut message = String::from_str("DBML解決に失敗しました: ");
    message.append(cause);
    ValidationError::Warning(String::from_str("import.dbml"), message)
}

} // verus!
