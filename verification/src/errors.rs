//! The tree of errors that a failed validation returns.
use crate::error::Error;
use crate::error::ErrorView;
use vstd::prelude::*;

verus! {

/// What an [`Errors`] value stands for: the errors of the value as a whole, in
/// the order in which they were added, and for each field that has errors the
/// tree of that field.
pub struct ErrorsView<T> {
    pub base: Seq<ErrorView<T>>,
    pub fields: Map<Seq<char>, ErrorsView<T>>,
}

impl<T> ErrorsView<T> {
    /// The tree without any error.
    pub open spec fn empty() -> Self {
        ErrorsView { base: Seq::empty(), fields: Map::empty() }
    }

    /// No error of the value as a whole and no entry for any field. Only this
    /// level is looked at: an entry counts even if the tree under it is empty.
    pub open spec fn is_empty(self) -> bool {
        self.base.len() == 0 && self.fields.dom() =~= Set::empty()
    }

    /// The tree under `field`, if the field has an entry.
    pub open spec fn field(self, field: Seq<char>) -> Option<Self> {
        if self.fields.contains_key(field) {
            Some(self.fields[field])
        } else {
            None
        }
    }

    /// The tree with `error` added after the errors of the value as a whole.
    pub open spec fn add_error(self, error: ErrorView<T>) -> Self {
        ErrorsView { base: self.base.push(error), fields: self.fields }
    }

    /// The tree with `errors` as the entry of `field`, whatever stood there.
    pub open spec fn set_field_errors(self, field: Seq<char>, errors: Self) -> Self {
        ErrorsView { base: self.base, fields: self.fields.insert(field, errors) }
    }

    /// The tree with `error` added to the entry of `field`: to the tree that
    /// stands there, or to an empty one where the field had no entry.
    pub open spec fn add_field_error(self, field: Seq<char>, error: ErrorView<T>) -> Self {
        let nested = match self.field(field) {
            Some(tree) => tree,
            None => Self::empty(),
        };
        self.set_field_errors(field, nested.add_error(error))
    }
}

/// The views of a sequence of errors, in the same order.
pub open spec fn error_views<T>(errors: Seq<Error<T>>) -> Seq<ErrorView<T>> {
    Seq::new(errors.len(), |i: int| errors[i]@)
}

/// The errors recorded for one field.
#[derive(Debug)]
struct FieldEntry<T> {
    name: String,
    errors: Box<Errors<T>>,
}

/// A collection of errors returned by a failed validation.
///
/// Both parts are absent until something is added to them, and once present
/// they are never empty. No two entries are for the same field.
#[derive(Debug)]
pub struct Errors<T> {
    base: Option<Vec<Error<T>>>,
    fields: Option<Vec<FieldEntry<T>>>,
}

/// `Errors` with no custom details, to avoid the generic parameter when not needed.
pub type SimpleErrors = Errors<()>;

impl<T> Errors<T> {
    spec fn base_seq(&self) -> Seq<Error<T>> {
        match self.base {
            Some(errors) => errors@,
            None => Seq::empty(),
        }
    }

    spec fn entries(&self) -> Seq<FieldEntry<T>> {
        match self.fields {
            Some(entries) => entries@,
            None => Seq::empty(),
        }
    }

    spec fn has_entry(&self, field: Seq<char>) -> bool {
        exists|i: int| 0 <= i < self.entries().len() && #[trigger] self.entries()[i].name@ == field
    }

    spec fn entry_index(&self, field: Seq<char>) -> int {
        choose|i: int| 0 <= i < self.entries().len() && #[trigger] self.entries()[i].name@ == field
    }

    #[verifier::type_invariant]
    spec fn well_formed(&self) -> bool {
        &&& self.base matches Some(errors) ==> errors@.len() > 0
        &&& self.fields matches Some(entries) ==> entries@.len() > 0
        &&& forall|i: int, j: int|
            0 <= i < j < self.entries().len() ==> #[trigger] self.entries()[i].name@
                != #[trigger] self.entries()[j].name@
    }
}

impl<T> Errors<T> {
    spec fn tree(&self) -> ErrorsView<T>
        decreases self,
    {
        ErrorsView {
            base: error_views(self.base_seq()),
            fields: Map::new(
                |field: Seq<char>| self.has_entry(field),
                |field: Seq<char>|
                    {
                        let i = self.entry_index(field);
                        if 0 <= i < self.entries().len() {
                            self.entries()[i].errors.tree()
                        } else {
                            ErrorsView::empty()
                        }
                    },
            ),
        }
    }
}

impl<T> View for Errors<T> {
    type V = ErrorsView<T>;

    closed spec fn view(&self) -> ErrorsView<T> {
        self.tree()
    }
}

impl<T> Errors<T> {
    /// Every entry is found in the view under its name, with the view of its
    /// tree, and the view has no other key.
    proof fn lemma_fields(&self)
        requires
            self.well_formed(),
        ensures
            forall|i: int|
                0 <= i < self.entries().len() ==> self@.fields.contains_key(
                    #[trigger] self.entries()[i].name@,
                ) && self@.fields[self.entries()[i].name@] == self.entries()[i].errors@,
            forall|field: Seq<char>| #[trigger]
                self@.fields.contains_key(field) ==> self.has_entry(field),
    {
        assert forall|i: int| 0 <= i < self.entries().len() implies self@.fields.contains_key(
            #[trigger] self.entries()[i].name@,
        ) && self@.fields[self.entries()[i].name@] == self.entries()[i].errors@ by {
            let field = self.entries()[i].name@;
            assert(self.has_entry(field));
            let j = self.entry_index(field);
            assert(j == i);
        }
    }

    /// Where `after` has the entries of `before` but for the one at `i`, which
    /// keeps its name or is new at the end, the fields of `after` are those of
    /// `before` with that entry put in under its name.
    proof fn lemma_entry_put(before: &Self, after: &Self, i: int)
        requires
            before.well_formed(),
            after.well_formed(),
            0 <= i < after.entries().len(),
            before.entries().len() <= after.entries().len(),
            i < before.entries().len() ==> after.entries()[i].name@ == before.entries()[i].name@,
            forall|j: int|
                0 <= j < after.entries().len() && j != i ==> j < before.entries().len()
                    && #[trigger] after.entries()[j] == before.entries()[j],
        ensures
            after@.fields == before@.fields.insert(
                after.entries()[i].name@,
                after.entries()[i].errors@,
            ),
    {
        before.lemma_fields();
        after.lemma_fields();
        let name = after.entries()[i].name@;
        let put = before@.fields.insert(name, after.entries()[i].errors@);
        assert forall|field: Seq<char>| #[trigger]
            after@.fields.contains_key(field) implies put.contains_key(field) by {
            let j = after.entry_index(field);
            assert(after.has_entry(field));
            if j != i {
                assert(after.entries()[j] == before.entries()[j]);
                assert(before@.fields.contains_key(before.entries()[j].name@));
            }
        }
        assert forall|field: Seq<char>| #[trigger]
            put.contains_key(field) implies after@.fields.contains_key(field)
            && after@.fields[field] == put[field] by {
            if field == name {
                assert(after@.fields.contains_key(after.entries()[i].name@));
            } else {
                assert(before.has_entry(field));
                let j = before.entry_index(field);
                assert(j != i);
                assert(j < after.entries().len());
                assert(after.entries()[j] == before.entries()[j]);
                assert(after@.fields.contains_key(after.entries()[j].name@));
                assert(before@.fields.contains_key(before.entries()[j].name@));
            }
        }
        assert(after@.fields =~= put);
    }

    /// The index of the entry for `name`, if there is one.
    fn position(entries: &Vec<FieldEntry<T>>, name: &String) -> (found: Option<usize>)
        ensures
            match found {
                Some(i) => i < entries@.len() && entries@[i as int].name@ == name@,
                None => forall|i: int|
                    0 <= i < entries@.len() ==> (#[trigger] entries@[i]).name@ != name@,
            },
    {
        let mut i: usize = 0;
        while i < entries.len()
            invariant
                i <= entries@.len(),
                forall|j: int| 0 <= j < i ==> (#[trigger] entries@[j]).name@ != name@,
            decreases entries@.len() - i,
        {
            if entries[i].name == *name {
                return Some(i);
            }
            i += 1;
        }
        None
    }

    /// Constructs an empty `Errors` value.
    pub fn new() -> (errors: Self)
        ensures
            errors@ == ErrorsView::<T>::empty(),
    {
        let errors = Errors { base: None, fields: None };
        assert(errors@.base =~= Seq::empty());
        assert(errors@.fields =~= Map::empty());
        errors
    }

    /// Adds a validation error that is not specific to any field.
    pub fn add_error(&mut self, error: Error<T>)
        ensures
            final(self)@ == old(self)@.add_error(error@),
            !final(self)@.is_empty(),
    {
        proof {
            use_type_invariant(&*self);
        }
        // The parts are moved out and the value is put back whole, so that it is
        // well formed at every point in between.
        let mut taken = Errors { base: None, fields: None };
        core::mem::swap(self, &mut taken);
        let Errors { base, fields } = taken;
        let mut base_errors = match base {
            Some(base_errors) => base_errors,
            None => Vec::new(),
        };
        base_errors.push(error);
        *self = Errors { base: Some(base_errors), fields };
        assert(self@.base =~= old(self)@.base.push(error@));
        assert(self@.fields =~= old(self)@.fields);
    }

    /// Adds a validation error for the given field.
    ///
    /// The error joins the ones that the field already has, also where those
    /// were assigned with [`Errors::set_field_errors`].
    pub fn add_field_error(&mut self, field: &str, error: Error<T>)
        ensures
            final(self)@ == old(self)@.add_field_error(field@, error@),
            !final(self)@.is_empty(),
    {
        proof {
            use_type_invariant(&*self);
            self.lemma_fields();
        }
        let name = field.to_owned();
        let mut taken = Errors { base: None, fields: None };
        core::mem::swap(self, &mut taken);
        let Errors { base, fields } = taken;
        let mut entries = match fields {
            Some(entries) => entries,
            None => Vec::new(),
        };
        let found = Self::position(&entries, &name);
        match found {
            Some(i) => {
                entries[i].errors.add_error(error);
            },
            None => {
                let mut errors = Errors::new();
                errors.add_error(error);
                entries.push(FieldEntry { name, errors: Box::new(errors) });
            },
        }
        *self = Errors { base, fields: Some(entries) };
        proof {
            let i = match found {
                Some(i) => i as int,
                None => old(self).entries().len() as int,
            };
            Self::lemma_entry_put(old(self), self, i);
            assert(self@.fields.dom().contains(field@));
            if found is None && old(self)@.fields.contains_key(field@) {
                assert(old(self).has_entry(field@));
            }
            assert(self@.base =~= old(self)@.base);
        }
    }

    /// Sets the given field's errors to the given `Errors`, in place of any
    /// that the field had.
    ///
    /// This is useful if the field itself implements `Validate`: the parent
    /// lets the field validate itself and assigns the resulting errors here.
    pub fn set_field_errors(&mut self, field: &str, errors: Errors<T>)
        ensures
            final(self)@ == old(self)@.set_field_errors(field@, errors@),
            !final(self)@.is_empty(),
    {
        proof {
            use_type_invariant(&*self);
            self.lemma_fields();
        }
        let name = field.to_owned();
        let mut taken = Errors { base: None, fields: None };
        core::mem::swap(self, &mut taken);
        let Errors { base, fields } = taken;
        let mut entries = match fields {
            Some(entries) => entries,
            None => Vec::new(),
        };
        let found = Self::position(&entries, &name);
        match found {
            Some(i) => {
                entries[i].errors = Box::new(errors);
            },
            None => {
                entries.push(FieldEntry { name, errors: Box::new(errors) });
            },
        }
        *self = Errors { base, fields: Some(entries) };
        proof {
            let i = match found {
                Some(i) => i as int,
                None => old(self).entries().len() as int,
            };
            Self::lemma_entry_put(old(self), self, i);
            assert(self@.fields.dom().contains(field@));
            assert(self@.base =~= old(self)@.base);
        }
    }

    /// A slice of non-field-specific errors, if any.
    pub fn base(&self) -> (base: Option<&[Error<T>]>)
        ensures
            match base {
                Some(errors) => errors@.len() > 0 && error_views(errors@) == self@.base,
                None => self@.base.len() == 0,
            },
            base matches Some(errors) ==> forall|i: int|
                0 <= i < errors@.len() ==> (#[trigger] errors@[i])@ == self@.base[i],
    {
        proof {
            use_type_invariant(self);
        }
        match &self.base {
            Some(errors) => Some(errors.as_slice()),
            None => None,
        }
    }

    /// The `Errors` for the given field, if any.
    pub fn field(&self, field: &str) -> (nested: Option<&Box<Errors<T>>>)
        ensures
            match nested {
                Some(errors) => self@.field(field@) == Some(errors@),
                None => self@.field(field@) is None,
            },
    {
        proof {
            use_type_invariant(self);
            self.lemma_fields();
        }
        match &self.fields {
            Some(entries) => {
                let name = field.to_owned();
                match Self::position(entries, &name) {
                    Some(i) => Some(&entries[i].errors),
                    None => None,
                }
            },
            None => None,
        }
    }

    /// The failure as it is shown to people. It names no single error.
    pub fn to_string(&self) -> (text: String)
        ensures
            text@ == "validation failed"@,
    {
        "validation failed".to_owned()
    }

    /// A short description of the failure.
    pub fn description(&self) -> (text: &'static str)
        ensures
            text@ == "validation failed"@,
    {
        "validation failed"
    }

    /// Returns `true` if there are no errors.
    pub fn is_empty(&self) -> (empty: bool)
        ensures
            empty == self@.is_empty(),
    {
        proof {
            use_type_invariant(self);
            self.lemma_fields();
            if self.fields is Some {
                assert(self@.fields.dom().contains(self.entries()[0].name@));
            } else {
                assert(self@.fields.dom() =~= Set::empty());
            }
        }
        self.base.is_none() && self.fields.is_none()
    }
}

} // verus!
