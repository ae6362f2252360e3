//! The rules on transforms: their targets are fields of the response
//! mapping, and the parameters that their conditions test exist.
use crate::ast::{below, preorder, preorder_of, ResponseMapping, Transform, TransformCondition, UsmlDocument};
use crate::text::{contains_text, texts};
use crate::validator::messages::{
    param_unchecked, param_unchecked_warning, unknown_param, unknown_param_error, unknown_target,
    unknown_target_error,
};
use crate::validator::{diagnostics, report, Diagnostic, ValidationError};
use vstd::prelude::*;

verus! {

/// The names of the fields of the given mappings.
pub open spec fn field_names(nodes: Seq<ResponseMapping>) -> Seq<Seq<char>> {
    nodes.map_values(|m: ResponseMapping| m.field@)
}

/// The names of all fields of a tree of mappings, whatever their depth.
pub open spec fn all_field_names(mappings: Seq<ResponseMapping>) -> Seq<Seq<char>> {
    field_names(preorder(mappings))
}

/// One warning for each of the conditions that tests a request parameter.
pub open spec fn param_warnings(target: Seq<char>, conditions: Seq<TransformCondition>) -> Seq<
    Diagnostic,
>
    decreases conditions.len(),
{
    if conditions.len() == 0 {
        Seq::empty()
    } else {
        let before = param_warnings(target, conditions.drop_last());
        if conditions.last().param is Some {
            before.push(param_unchecked(target))
        } else {
            before
        }
    }
}

/// The finding on the target of a transform: it has to be the name of a
/// field.
pub open spec fn target_diagnostics(transform: Transform, names: Seq<Seq<char>>) -> Seq<
    Diagnostic,
> {
    if names.contains(transform.target@) {
        Seq::empty()
    } else {
        seq![unknown_target(transform.target@)]
    }
}

/// The warnings on the conditions of a transform. Where the parameters of
/// the operation are known there is none: the conditions are then checked
/// against them.
pub open spec fn condition_warnings(transform: Transform, params_known: bool) -> Seq<Diagnostic> {
    if params_known {
        Seq::empty()
    } else {
        match transform.condition {
            Some(conditions) => param_warnings(transform.target@, conditions@),
            None => Seq::empty(),
        }
    }
}

/// The findings on the given transforms, one transform after the other: on
/// its target, then on its conditions.
pub open spec fn transforms_diagnostics(
    transforms: Seq<Transform>,
    names: Seq<Seq<char>>,
    params_known: bool,
) -> Seq<Diagnostic>
    decreases transforms.len(),
{
    if transforms.len() == 0 {
        Seq::empty()
    } else {
        transforms_diagnostics(transforms.drop_last(), names, params_known) + target_diagnostics(
            transforms.last(),
            names,
        ) + condition_warnings(transforms.last(), params_known)
    }
}

/// The findings of the rules on transforms that need no schema.
/// `params_known` says whether the parameters of the operation are known.
pub open spec fn transform_diagnostics(doc: UsmlDocument, params_known: bool) -> Seq<Diagnostic> {
    transforms_diagnostics(
        doc.usecase.transforms@,
        all_field_names(doc.usecase.response_mapping@),
        params_known,
    )
}

/// Adds the names of all fields of a tree of mappings, in the order of a
/// walk.
pub fn collect_field_names(mappings: &Vec<ResponseMapping>, names: &mut Vec<String>)
    ensures
        texts(final(names)@) == texts(old(names)@) + all_field_names(mappings@),
    decreases mappings,
{
    let ghost start = texts(names@);
    let mut i: usize = 0;
    proof {
        assert(mappings@.take(0) =~= Seq::<ResponseMapping>::empty());
        assert(start + field_names(Seq::<ResponseMapping>::empty()) =~= start);
    }
    while i < mappings.len()
        invariant
            i <= mappings.len(),
            texts(names@) == start + field_names(preorder(mappings@.take(i as int))),
        decreases mappings.len() - i,
    {
        let mapping = &mappings[i];
        let ghost done = preorder(mappings@.take(i as int));
        let ghost under = below(*mapping);
        let name = mapping.field.clone();
        proof {
            assert(texts(names@.push(name)) =~= texts(names@).push(mapping.field@));
        }
        names.push(name);
        match &mapping.fields {
            Some(sub_fields) => {
                collect_field_names(sub_fields, names);
            },
            None => {},
        }
        proof {
            let one = seq![*mapping];
            assert(mappings@.take(i + 1).drop_last() =~= mappings@.take(i as int));
            assert(mappings@.take(i + 1).last() == *mapping);
            assert(preorder_of(*mapping) == one + under);
            assert(preorder(mappings@.take(i + 1)) == done + (one + under));
            assert(field_names(done + (one + under)) =~= field_names(done).push(mapping.field@)
                + field_names(under));
            assert(texts(names@) =~= start + field_names(done + (one + under)));
        }
        i += 1;
    }
    proof {
        assert(mappings@.take(mappings.len() as int) =~= mappings@);
    }
}

/// Warns of each condition that tests a request parameter.
pub fn warn_of_params(
    target: &str,
    conditions: &Vec<TransformCondition>,
    errors: &mut Vec<ValidationError>,
)
    ensures
        diagnostics(final(errors)@) == diagnostics(old(errors)@) + param_warnings(
            target@,
            conditions@,
        ),
{
    let mut i: usize = 0;
    proof {
        assert(diagnostics(errors@) + Seq::<Diagnostic>::empty() =~= diagnostics(errors@));
    }
    while i < conditions.len()
        invariant
            i <= conditions.len(),
            diagnostics(errors@) == diagnostics(old(errors)@) + param_warnings(
                target@,
                conditions@.take(i as int),
            ),
        decreases conditions.len() - i,
    {
        let ghost before = param_warnings(target@, conditions@.take(i as int));
        proof {
            assert(conditions@.take(i + 1).drop_last() =~= conditions@.take(i as int));
            assert(conditions@.take(i + 1).last() == conditions@[i as int]);
        }
        if conditions[i].param.is_some() {
            let error = param_unchecked_warning(target);
            report(errors, error);
            proof {
                assert((diagnostics(old(errors)@) + before).push(error@) =~= diagnostics(
                    old(errors)@,
                ) + before.push(error@));
            }
        }
        i += 1;
    }
    proof {
        assert(conditions@.take(conditions.len() as int) =~= conditions@);
    }
}

/// Reports what the rules on transforms find that need no schema: targets
/// that are no fields and, unless the parameters of the operation are known,
/// conditions that test a parameter.
pub fn check_transforms(doc: &UsmlDocument, params_known: bool, errors: &mut Vec<ValidationError>)
    ensures
        diagnostics(final(errors)@) == diagnostics(old(errors)@) + transform_diagnostics(
            *doc,
            params_known,
        ),
{
    let mut field_list: Vec<String> = Vec::new();
    proof {
        assert(texts(field_list@) =~= Seq::<Seq<char>>::empty());
    }
    collect_field_names(&doc.usecase.response_mapping, &mut field_list);
    let ghost names = all_field_names(doc.usecase.response_mapping@);
    proof {
        assert(Seq::<Seq<char>>::empty() + names =~= names);
    }
    let transforms = &doc.usecase.transforms;
    let ghost start = diagnostics(errors@);
    let mut i: usize = 0;
    proof {
        assert(start + Seq::<Diagnostic>::empty() =~= start);
    }
    while i < transforms.len()
        invariant
            i <= transforms.len(),
            transforms == &doc.usecase.transforms,
            texts(field_list@) == names,
            diagnostics(errors@) == start + transforms_diagnostics(
                transforms@.take(i as int),
                names,
                params_known,
            ),
        decreases transforms.len() - i,
    {
        let transform = &transforms[i];
        let ghost before = transforms_diagnostics(transforms@.take(i as int), names, params_known);
        let ghost d1 = target_diagnostics(*transform, names);
        proof {
            assert(transforms@.take(i + 1).drop_last() =~= transforms@.take(i as int));
            assert(transforms@.take(i + 1).last() == *transform);
            assert(start + before + Seq::<Diagnostic>::empty() =~= start + before);
        }
        if !contains_text(&field_list, transform.target.as_str()) {
            let error = unknown_target_error(transform.target.as_str());
            report(errors, error);
            proof {
                assert((start + before).push(error@) =~= start + before + seq![error@]);
            }
        }
        proof {
            assert(diagnostics(errors@) == start + before + d1);
            assert(start + before + d1 + Seq::<Diagnostic>::empty() =~= start + before + d1);
        }
        if !params_known {
            match &transform.condition {
                Some(conditions) => {
                    warn_of_params(transform.target.as_str(), conditions, errors);
                },
                None => {},
            }
        }
        proof {
            assert(diagnostics(errors@) =~= start + (before + d1 + condition_warnings(
                *transform,
                params_known,
            )));
        }
        i += 1;
    }
    proof {
        assert(transforms@.take(transforms.len() as int) =~= transforms@);
    }
}

/// Reports what the rules on transforms find in a document of which no
/// schema is known.
pub fn validate_transforms(doc: &UsmlDocument, errors: &mut Vec<ValidationError>)
    ensures
        diagnostics(final(errors)@) == diagnostics(old(errors)@) + transform_diagnostics(
            *doc,
            false,
        ),
{
    check_transforms(doc, false, errors);
}

} // verus!
