//! The rules on filters: the parameters that conditions name are declared,
//! and the default column of a sort is an allowed one.
use crate::ast::{Filter, UsmlDocument};
use crate::text::{
    contains_text, same_text, slices, split_whitespace, strip_prefix, texts, trim_end,
    trim_end_of, without_prefix, words,
};
use crate::validator::messages::{
    default_column_not_allowed, default_column_not_allowed_error, undeclared_param,
    undeclared_param_error,
};
use crate::validator::{diagnostics, report, Diagnostic, ValidationError};
use vstd::prelude::*;

verus! {

/// The parameters that the filters declare.
pub open spec fn declared_params(filters: Seq<Filter>) -> Seq<Seq<char>> {
    filters.map_values(|f: Filter| f.param@)
}

/// The parameter that a word of a condition names: the word begins with a
/// colon, and what follows, without the characters at its end that belong to
/// no name, is not empty.
pub open spec fn named_param(word: Seq<char>) -> Option<Seq<char>> {
    match without_prefix(word, ":"@) {
        Some(rest) => {
            let name = trim_end(rest, false);
            if name.len() > 0 {
                Some(name)
            } else {
                None
            }
        },
        None => None,
    }
}

/// One finding for each of the words that names a parameter that is not
/// declared.
pub open spec fn condition_diagnostics(words: Seq<Seq<char>>, declared: Seq<Seq<char>>) -> Seq<
    Diagnostic,
>
    decreases words.len(),
{
    if words.len() == 0 {
        Seq::empty()
    } else {
        let before = condition_diagnostics(words.drop_last(), declared);
        match named_param(words.last()) {
            Some(name) => if declared.contains(name) {
                before
            } else {
                before.push(undeclared_param(name))
            },
            None => before,
        }
    }
}

/// The findings on the condition of a filter.
pub open spec fn filter_condition_diagnostics(filter: Filter, declared: Seq<Seq<char>>) -> Seq<
    Diagnostic,
> {
    match filter.condition {
        Some(condition) => condition_diagnostics(words(condition@), declared),
        None => Seq::empty(),
    }
}

/// The finding on a filter that sorts: where it lists the allowed columns and
/// names a default, the default has to be listed.
pub open spec fn order_by_diagnostics(filter: Filter) -> Seq<Diagnostic> {
    if filter.maps_to@ == "ORDER_BY"@ {
        match (filter.allowed_columns, filter.default_column) {
            (Some(allowed), Some(column)) => if texts(allowed@).contains(column@) {
                Seq::empty()
            } else {
                seq![default_column_not_allowed(column@)]
            },
            _ => Seq::empty(),
        }
    } else {
        Seq::empty()
    }
}

/// The findings on the given filters, one filter after the other: on its
/// condition, then on its sort.
pub open spec fn filters_diagnostics(filters: Seq<Filter>, declared: Seq<Seq<char>>) -> Seq<
    Diagnostic,
>
    decreases filters.len(),
{
    if filters.len() == 0 {
        Seq::empty()
    } else {
        filters_diagnostics(filters.drop_last(), declared) + filter_condition_diagnostics(
            filters.last(),
            declared,
        ) + order_by_diagnostics(filters.last())
    }
}

/// The findings of the rules on filters.
pub open spec fn filter_diagnostics(doc: UsmlDocument) -> Seq<Diagnostic> {
    filters_diagnostics(doc.usecase.filters@, declared_params(doc.usecase.filters@))
}

/// Whether a filter declares the parameter.
pub fn declares(filters: &Vec<Filter>, name: &str) -> (r: bool)
    ensures
        r == declared_params(filters@).contains(name@),
{
    let mut i: usize = 0;
    while i < filters.len()
        invariant
            i <= filters.len(),
            forall|j: int| 0 <= j < i ==> declared_params(filters@)[j] != name@,
        decreases filters.len() - i,
    {
        if same_text(filters[i].param.as_str(), name) {
            proof {
                assert(declared_params(filters@)[i as int] == name@);
            }
            return true;
        }
        i += 1;
    }
    false
}

/// Reports the parameters that the condition names and that no filter
/// declares, one finding for each time one is named.
pub fn check_condition(condition: &str, filters: &Vec<Filter>, errors: &mut Vec<ValidationError>)
    ensures
        diagnostics(final(errors)@) == diagnostics(old(errors)@) + condition_diagnostics(
            words(condition@),
            declared_params(filters@),
        ),
{
    let tokens = split_whitespace(condition);
    let ghost all = words(condition@);
    let ghost declared = declared_params(filters@);
    let mut i: usize = 0;
    proof {
        assert(diagnostics(errors@) + Seq::<Diagnostic>::empty() =~= diagnostics(errors@));
    }
    while i < tokens.len()
        invariant
            i <= tokens.len(),
            slices(tokens@) == all,
            declared == declared_params(filters@),
            diagnostics(errors@) == diagnostics(old(errors)@) + condition_diagnostics(
                all.take(i as int),
                declared,
            ),
        decreases tokens.len() - i,
    {
        let ghost before = condition_diagnostics(all.take(i as int), declared);
        proof {
            assert(all.take(i + 1).drop_last() =~= all.take(i as int));
            assert(all.take(i + 1).last() == tokens@[i as int]@);
        }
        match strip_prefix(tokens[i], ":") {
            Some(rest) => {
                let name = trim_end_of(rest, false);
                if !name.is_empty() && !declares(filters, name) {
                    let error = undeclared_param_error(name);
                    report(errors, error);
                    proof {
                        assert((diagnostics(old(errors)@) + before).push(error@) =~= diagnostics(
                            old(errors)@,
                        ) + before.push(error@));
                    }
                }
            },
            None => {},
        }
        i += 1;
    }
    proof {
        assert(all.take(tokens.len() as int) =~= all);
    }
}

/// Reports the default column of a sort that is not among the allowed ones.
pub fn check_order_by(filter: &Filter, errors: &mut Vec<ValidationError>)
    ensures
        diagnostics(final(errors)@) == diagnostics(old(errors)@) + order_by_diagnostics(*filter),
{
    proof {
        assert(diagnostics(errors@) + Seq::<Diagnostic>::empty() =~= diagnostics(errors@));
    }
    if same_text(filter.maps_to.as_str(), "ORDER_BY") {
        match (&filter.allowed_columns, &filter.default_column) {
            (Some(allowed), Some(column)) => {
                if !contains_text(allowed, column.as_str()) {
                    let error = default_column_not_allowed_error(column.as_str());
                    report(errors, error);
                    proof {
                        assert(diagnostics(old(errors)@).push(error@) =~= diagnostics(
                            old(errors)@,
                        ) + seq![error@]);
                    }
                }
            },
            _ => {},
        }
    }
}

/// Reports what the rules on filters find in a document.
pub fn validate_filters(doc: &UsmlDocument, errors: &mut Vec<ValidationError>)
    ensures
        diagnostics(final(errors)@) == diagnostics(old(errors)@) + filter_diagnostics(*doc),
{
    let filters = &doc.usecase.filters;
    let ghost declared = declared_params(filters@);
    let ghost start = diagnostics(errors@);
    let mut i: usize = 0;
    proof {
        assert(start + Seq::<Diagnostic>::empty() =~= start);
    }
    while i < filters.len()
        invariant
            i <= filters.len(),
            filters == &doc.usecase.filters,
            declared == declared_params(filters@),
            diagnostics(errors@) == start + filters_diagnostics(filters@.take(i as int), declared),
        decreases filters.len() - i,
    {
        let filter = &filters[i];
        let ghost before = filters_diagnostics(filters@.take(i as int), declared);
        proof {
            assert(filters@.take(i + 1).drop_last() =~= filters@.take(i as int));
            assert(filters@.take(i + 1).last() == *filter);
            assert(start + before + Seq::<Diagnostic>::empty() =~= start + before);
        }
        match &filter.condition {
            Some(condition) => {
                check_condition(condition.as_str(), filters, errors);
            },
            None => {},
        }
        check_order_by(filter, errors);
        proof {
            assert(diagnostics(errors@) =~= start + (before + filter_condition_diagnostics(
                *filter,
                declared,
            ) + order_by_diagnostics(*filter)));
        }
        i += 1;
    }
    proof {
        assert(filters@.take(filters.len() as int) =~= filters@);
    }
}

} // verus!
