//! What holds of every tree of errors, however it was built.
use crate::error::ErrorView;
use crate::errors::ErrorsView;
use vstd::prelude::*;

verus! {

/// One change made to a tree while it is built.
pub enum Step<T> {
    /// An error of the value as a whole is added.
    AddError(ErrorView<T>),
    /// An error is added to a field.
    AddFieldError(Seq<char>, ErrorView<T>),
    /// A field is given a tree of errors.
    SetFieldErrors(Seq<char>, ErrorsView<T>),
}

impl<T> Step<T> {
    /// The tree after this step is made on `tree`.
    pub open spec fn apply(self, tree: ErrorsView<T>) -> ErrorsView<T> {
        match self {
            Step::AddError(error) => tree.add_error(error),
            Step::AddFieldError(field, error) => tree.add_field_error(field, error),
            Step::SetFieldErrors(field, errors) => tree.set_field_errors(field, errors),
        }
    }

    /// The step adds or sets the errors of `field`.
    pub open spec fn touches(self, field: Seq<char>) -> bool {
        match self {
            Step::AddError(_) => false,
            Step::AddFieldError(name, _) => name == field,
            Step::SetFieldErrors(name, _) => name == field,
        }
    }

    /// The step gives a field a tree that holds nothing.
    pub open spec fn sets_empty(self) -> bool {
        self matches Step::SetFieldErrors(_, errors) && errors.is_empty()
    }
}

/// The tree that the steps build, made in order on an empty tree.
pub open spec fn built<T>(steps: Seq<Step<T>>) -> ErrorsView<T>
    decreases steps.len(),
{
    if steps.len() == 0 {
        ErrorsView::empty()
    } else {
        steps.last().apply(built(steps.drop_last()))
    }
}

/// The tree with each of `errors` added in turn as an error of the value as a
/// whole.
pub open spec fn with_errors<T>(tree: ErrorsView<T>, errors: Seq<ErrorView<T>>) -> ErrorsView<T>
    decreases errors.len(),
{
    if errors.len() == 0 {
        tree
    } else {
        with_errors(tree, errors.drop_last()).add_error(errors.last())
    }
}

/// A tree is empty exactly when no step was made to build it: every step,
/// whatever it adds or sets, leaves the tree with something in it.
pub proof fn empty_iff_no_step<T>(steps: Seq<Step<T>>)
    ensures
        built(steps).is_empty() <==> steps.len() == 0,
{
    if steps.len() > 0 {
        let before = built(steps.drop_last());
        match steps.last() {
            Step::AddError(error) => {},
            Step::AddFieldError(field, error) => {
                assert(before.add_field_error(field, error).fields.dom().contains(field));
            },
            Step::SetFieldErrors(field, errors) => {
                assert(before.set_field_errors(field, errors).fields.dom().contains(field));
            },
        }
    }
}

/// Where no step gives a field an empty tree, a tree is empty exactly when
/// no error was added and no field was given a tree with errors in it.
pub proof fn empty_iff_nothing_added<T>(steps: Seq<Step<T>>)
    requires
        forall|i: int| 0 <= i < steps.len() ==> !(#[trigger] steps[i]).sets_empty(),
    ensures
        built(steps).is_empty() <==> forall|i: int|
            0 <= i < steps.len() ==> !((#[trigger] steps[i]) is AddError || steps[i] is AddFieldError
                || (steps[i] matches Step::SetFieldErrors(_, errors) && !errors.is_empty())),
{
    empty_iff_no_step(steps);
    if steps.len() > 0 {
        assert(!steps[0].sets_empty());
    }
}

/// Errors of the value as a whole stay in the order in which they were
/// added, after those that the tree had, and the fields stay as they were.
pub proof fn add_error_keeps_order<T>(tree: ErrorsView<T>, errors: Seq<ErrorView<T>>)
    ensures
        with_errors(tree, errors).base == tree.base + errors,
        with_errors(tree, errors).fields == tree.fields,
    decreases errors.len(),
{
    if errors.len() == 0 {
        assert(tree.base + errors =~= tree.base);
    } else {
        add_error_keeps_order(tree, errors.drop_last());
        assert((tree.base + errors.drop_last()).push(errors.last()) =~= tree.base + errors);
    }
}

/// Two errors added to one field are both kept, in that order, after the
/// errors that the field had; the nested fields of that field stay.
pub proof fn add_field_error_accumulates<T>(
    tree: ErrorsView<T>,
    field: Seq<char>,
    first: ErrorView<T>,
    second: ErrorView<T>,
)
    ensures
        ({
            let prior = match tree.field(field) {
                Some(errors) => errors,
                None => ErrorsView::empty(),
            };
            let after = tree.add_field_error(field, first).add_field_error(field, second);
            &&& after.field(field) matches Some(errors)
            &&& errors.base == prior.base + seq![first, second]
            &&& errors.fields == prior.fields
        }),
        tree.field(field) is None ==> tree.add_field_error(field, first).add_field_error(
            field,
            second,
        ).field(field).unwrap().base == seq![first, second],
{
    let prior = match tree.field(field) {
        Some(errors) => errors,
        None => ErrorsView::empty(),
    };
    assert(prior.base.push(first).push(second) =~= prior.base + seq![first, second]);
    assert(Seq::<ErrorView<T>>::empty() + seq![first, second] =~= seq![first, second]);
}

/// A tree given to a field takes the place of the errors added to that field
/// before: the outcome is as if they had never been added.
pub proof fn set_field_errors_replaces<T>(
    tree: ErrorsView<T>,
    field: Seq<char>,
    error: ErrorView<T>,
    errors: ErrorsView<T>,
)
    ensures
        tree.add_field_error(field, error).set_field_errors(field, errors).field(field) == Some(
            errors,
        ),
        tree.add_field_error(field, error).set_field_errors(field, errors)
            == tree.set_field_errors(field, errors),
{
    let replaced = tree.add_field_error(field, error).set_field_errors(field, errors);
    assert(replaced.fields =~= tree.set_field_errors(field, errors).fields);
}

/// A field that no step touches has no entry in the tree that the steps
/// build.
pub proof fn untouched_field_is_absent<T>(steps: Seq<Step<T>>, field: Seq<char>)
    requires
        forall|i: int| 0 <= i < steps.len() ==> !(#[trigger] steps[i]).touches(field),
    ensures
        built(steps).field(field) is None,
    decreases steps.len(),
{
    if steps.len() > 0 {
        let rest = steps.drop_last();
        assert forall|i: int| 0 <= i < rest.len() implies !(#[trigger] rest[i]).touches(field) by {
            assert(rest[i] == steps[i]);
        }
        untouched_field_is_absent(rest, field);
        assert(!steps[steps.len() - 1].touches(field));
    }
}

/// The details that an error is made with, or is given later, are the ones
/// that it has; giving details leaves the message as it was.
pub proof fn details_round_trip<T>(message: Seq<char>, details: T, error: ErrorView<T>)
    ensures
        ErrorView::with_details(message, details).details == Some(details),
        ErrorView::<T>::new(message).details is None,
        error.set_details(details).details == Some(details),
        error.set_details(details).message == error.message,
{
}

} // verus!
