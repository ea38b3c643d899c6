//! Databases and the fields that their records share.

use vstd::prelude::*;

use crate::ids::{DatabaseId, FieldId};
use crate::text::{same_text, views};

verus! {

/// One of the choices of a selection field.
#[derive(Debug, PartialEq)]
pub struct SelectionOption {
    pub name: String,
    pub color: String,
}

/// One of the choices of a selection field.
pub ghost struct SelectionOptionView {
    pub name: Seq<char>,
    pub color: Seq<char>,
}

impl View for SelectionOption {
    type V = SelectionOptionView;

    open spec fn view(&self) -> SelectionOptionView {
        SelectionOptionView { name: self.name@, color: self.color@ }
    }
}

impl Clone for SelectionOption {
    fn clone(&self) -> (copy: Self)
        ensures
            copy@ == self@,
    {
        SelectionOption { name: self.name.clone(), color: self.color.clone() }
    }
}

impl SelectionOption {
    /// Whether the two choices are the same.
    pub fn same(&self, other: &SelectionOption) -> (same: bool)
        ensures
            same == (self@ == other@),
    {
        same_text(self.name.as_str(), other.name.as_str()) && same_text(
            self.color.as_str(),
            other.color.as_str(),
        )
    }
}

/// What kind of value a field holds.
#[derive(Debug, PartialEq)]
pub enum FieldKind {
    Text,
    Number,
    Boolean,
    Selection { multi: bool, options: Vec<SelectionOption> },
    Date,
    /// `paired_field` is the field at the other end of the relationship. It is
    /// established when the field is added to a registry; what a caller puts
    /// there is ignored.
    Reference { target_database: DatabaseId, paired_field: Option<FieldId> },
    Blob,
    Json,
    /// Inline bytes that the plugin named by `kind_id` gives a meaning.
    Custom { kind_id: String },
    /// A blob that the plugin named by `kind_id` gives a meaning.
    CustomBlob { kind_id: String },
}

/// What kind of value a field holds.
pub ghost enum FieldKindView {
    Text,
    Number,
    Boolean,
    Selection { multi: bool, options: Seq<SelectionOptionView> },
    Date,
    Reference { target_database: DatabaseId, paired_field: Option<FieldId> },
    Blob,
    Json,
    Custom { kind_id: Seq<char> },
    CustomBlob { kind_id: Seq<char> },
}

impl View for FieldKind {
    type V = FieldKindView;

    open spec fn view(&self) -> FieldKindView {
        match self {
            FieldKind::Text => FieldKindView::Text,
            FieldKind::Number => FieldKindView::Number,
            FieldKind::Boolean => FieldKindView::Boolean,
            FieldKind::Selection { multi, options } => FieldKindView::Selection {
                multi: *multi,
                options: views(options@),
            },
            FieldKind::Date => FieldKindView::Date,
            FieldKind::Reference { target_database, paired_field } => FieldKindView::Reference {
                target_database: *target_database,
                paired_field: *paired_field,
            },
            FieldKind::Blob => FieldKindView::Blob,
            FieldKind::Json => FieldKindView::Json,
            FieldKind::Custom { kind_id } => FieldKindView::Custom { kind_id: kind_id@ },
            FieldKind::CustomBlob { kind_id } => FieldKindView::CustomBlob { kind_id: kind_id@ },
        }
    }
}

/// A copy of a list of choices.
pub fn copy_options(options: &Vec<SelectionOption>) -> (copies: Vec<SelectionOption>)
    ensures
        views(copies@) == views(options@),
{
    let mut copies: Vec<SelectionOption> = Vec::new();
    let mut i: usize = 0;
    while i < options.len()
        invariant
            i <= options.len(),
            copies.len() == i,
            forall|j: int| 0 <= j < i ==> copies@[j]@ == options@[j]@,
        decreases options.len() - i,
    {
        copies.push(options[i].clone());
        i += 1;
    }
    assert(views(copies@) =~= views(options@));
    copies
}

/// Whether two lists of choices are the same.
pub fn same_options(a: &Vec<SelectionOption>, b: &Vec<SelectionOption>) -> (same: bool)
    ensures
        same == (views(a@) == views(b@)),
{
    if a.len() != b.len() {
        assert(views(a@).len() != views(b@).len());
        return false;
    }
    let mut i: usize = 0;
    while i < a.len()
        invariant
            a.len() == b.len(),
            i <= a.len(),
            forall|j: int| 0 <= j < i ==> a@[j]@ == b@[j]@,
        decreases a.len() - i,
    {
        if !a[i].same(&b[i]) {
            assert(views(a@)[i as int] != views(b@)[i as int]);
            return false;
        }
        i += 1;
    }
    assert(views(a@) =~= views(b@));
    true
}

impl Clone for FieldKind {
    fn clone(&self) -> (copy: Self)
        ensures
            copy@ == self@,
    {
        match self {
            FieldKind::Text => FieldKind::Text,
            FieldKind::Number => FieldKind::Number,
            FieldKind::Boolean => FieldKind::Boolean,
            FieldKind::Selection { multi, options } => FieldKind::Selection {
                multi: *multi,
                options: copy_options(options),
            },
            FieldKind::Date => FieldKind::Date,
            FieldKind::Reference { target_database, paired_field } => FieldKind::Reference {
                target_database: *target_database,
                paired_field: *paired_field,
            },
            FieldKind::Blob => FieldKind::Blob,
            FieldKind::Json => FieldKind::Json,
            FieldKind::Custom { kind_id } => FieldKind::Custom { kind_id: kind_id.clone() },
            FieldKind::CustomBlob { kind_id } => FieldKind::CustomBlob { kind_id: kind_id.clone() },
        }
    }
}

impl FieldKindView {
    /// The database that a reference field points at.
    pub open spec fn target(self) -> Option<DatabaseId> {
        match self {
            FieldKindView::Reference { target_database, .. } => Some(target_database),
            _ => None,
        }
    }

    /// The field at the other end of the relationship.
    pub open spec fn pair(self) -> Option<FieldId> {
        match self {
            FieldKindView::Reference { paired_field, .. } => paired_field,
            _ => None,
        }
    }
}

/// Whether two optional fields are the same.
fn same_pair(a: Option<FieldId>, b: Option<FieldId>) -> (same: bool)
    ensures
        same == (a == b),
{
    match (a, b) {
        (Some(a), Some(b)) => a == b,
        (None, None) => true,
        _ => false,
    }
}

impl FieldKind {
    /// Whether the two kinds are the same, with everything that they carry.
    pub fn same(&self, other: &FieldKind) -> (same: bool)
        ensures
            same == (self@ == other@),
    {
        match (self, other) {
            (FieldKind::Text, FieldKind::Text) => true,
            (FieldKind::Number, FieldKind::Number) => true,
            (FieldKind::Boolean, FieldKind::Boolean) => true,
            (
                FieldKind::Selection { multi: multi_a, options: options_a },
                FieldKind::Selection { multi: multi_b, options: options_b },
            ) => *multi_a == *multi_b && same_options(options_a, options_b),
            (FieldKind::Date, FieldKind::Date) => true,
            (
                FieldKind::Reference { target_database: target_a, paired_field: pair_a },
                FieldKind::Reference { target_database: target_b, paired_field: pair_b },
            ) => *target_a == *target_b && same_pair(*pair_a, *pair_b),
            (FieldKind::Blob, FieldKind::Blob) => true,
            (FieldKind::Json, FieldKind::Json) => true,
            (FieldKind::Custom { kind_id: a }, FieldKind::Custom { kind_id: b }) => same_text(
                a.as_str(),
                b.as_str(),
            ),
            (
                FieldKind::CustomBlob { kind_id: a },
                FieldKind::CustomBlob { kind_id: b },
            ) => same_text(a.as_str(), b.as_str()),
            _ => false,
        }
    }

    /// Whether this is the kind of a reference field.
    pub fn is_reference(&self) -> (reference: bool)
        ensures
            reference == (self@ is Reference),
    {
        match self {
            FieldKind::Reference { .. } => true,
            _ => false,
        }
    }

    /// The database that a reference field points at.
    pub fn target(&self) -> (target: Option<DatabaseId>)
        ensures
            target == self@.target(),
    {
        match self {
            FieldKind::Reference { target_database, .. } => Some(*target_database),
            _ => None,
        }
    }

    /// The field at the other end of the relationship.
    pub fn pair(&self) -> (pair: Option<FieldId>)
        ensures
            pair == self@.pair(),
    {
        match self {
            FieldKind::Reference { paired_field, .. } => *paired_field,
            _ => None,
        }
    }
}

/// A field of a database.
#[derive(Debug, PartialEq)]
pub struct FieldDefinition {
    pub id: FieldId,
    pub name: String,
    pub kind: FieldKind,
    pub ordering: i32,
}

/// A field of a database.
pub ghost struct FieldView {
    pub id: FieldId,
    pub name: Seq<char>,
    pub kind: FieldKindView,
    pub ordering: i32,
}

impl View for FieldDefinition {
    type V = FieldView;

    open spec fn view(&self) -> FieldView {
        FieldView { id: self.id, name: self.name@, kind: self.kind@, ordering: self.ordering }
    }
}

impl Clone for FieldDefinition {
    fn clone(&self) -> (copy: Self)
        ensures
            copy@ == self@,
    {
        FieldDefinition {
            id: self.id,
            name: self.name.clone(),
            kind: self.kind.clone(),
            ordering: self.ordering,
        }
    }
}

impl FieldDefinition {
    /// Whether the two fields are the same in everything.
    pub fn same(&self, other: &FieldDefinition) -> (same: bool)
        ensures
            same == (self@ == other@),
    {
        self.id == other.id && same_text(self.name.as_str(), other.name.as_str())
            && self.kind.same(&other.kind) && self.ordering == other.ordering
    }
}

/// A copy of a list of fields.
pub fn copy_fields(fields: &Vec<FieldDefinition>) -> (copies: Vec<FieldDefinition>)
    ensures
        views(copies@) == views(fields@),
{
    let mut copies: Vec<FieldDefinition> = Vec::new();
    let mut i: usize = 0;
    while i < fields.len()
        invariant
            i <= fields.len(),
            copies.len() == i,
            forall|j: int| 0 <= j < i ==> copies@[j]@ == fields@[j]@,
        decreases fields.len() - i,
    {
        copies.push(fields[i].clone());
        i += 1;
    }
    assert(views(copies@) =~= views(fields@));
    copies
}

/// A database: a name and the fields that all its records share.
#[derive(Debug, PartialEq)]
pub struct Database {
    pub id: DatabaseId,
    pub name: String,
    pub fields: Vec<FieldDefinition>,
}

/// A database: a name and the fields that all its records share.
pub ghost struct DatabaseView {
    pub id: DatabaseId,
    pub name: Seq<char>,
    pub fields: Seq<FieldView>,
}

impl View for Database {
    type V = DatabaseView;

    open spec fn view(&self) -> DatabaseView {
        DatabaseView { id: self.id, name: self.name@, fields: views(self.fields@) }
    }
}

impl Clone for Database {
    fn clone(&self) -> (copy: Self)
        ensures
            copy@ == self@,
    {
        Database { id: self.id, name: self.name.clone(), fields: copy_fields(&self.fields) }
    }
}

/// Where the first field with this id stands.
pub open spec fn field_position(fields: Seq<FieldView>, id: FieldId) -> Option<int>
    decreases fields.len(),
{
    if fields.len() == 0 {
        None
    } else {
        match field_position(fields.drop_last(), id) {
            Some(i) => Some(i),
            None => if fields.last().id == id {
                Some(fields.len() - 1)
            } else {
                None
            },
        }
    }
}

/// The first field with this id.
pub open spec fn field_of(fields: Seq<FieldView>, id: FieldId) -> Option<FieldView> {
    match field_position(fields, id) {
        Some(i) => Some(fields[i]),
        None => None,
    }
}

/// What a position found says.
pub proof fn field_position_found(fields: Seq<FieldView>, id: FieldId)
    ensures
        match field_position(fields, id) {
            Some(i) => {
                &&& 0 <= i < fields.len()
                &&& fields[i].id == id
                &&& forall|j: int| 0 <= j < i ==> (#[trigger] fields[j]).id != id
            },
            None => forall|j: int| 0 <= j < fields.len() ==> (#[trigger] fields[j]).id != id,
        },
    decreases fields.len(),
{
    if fields.len() > 0 {
        let rest = fields.drop_last();
        field_position_found(rest, id);
        match field_position(rest, id) {
            Some(i) => {
                assert(rest[i] == fields[i]);
                assert forall|j: int| 0 <= j < i implies (#[trigger] fields[j]).id != id by {
                    assert(rest[j] == fields[j]);
                }
            },
            None => {
                assert forall|j: int| 0 <= j < fields.len() - 1 implies (#[trigger] fields[j]).id
                    != id by {
                    assert(rest[j] == fields[j]);
                }
            },
        }
    }
}

/// The first field with an id is found where it stands.
pub proof fn field_position_is(fields: Seq<FieldView>, id: FieldId, i: int)
    requires
        0 <= i < fields.len(),
        fields[i].id == id,
        forall|j: int| 0 <= j < i ==> (#[trigger] fields[j]).id != id,
    ensures
        field_position(fields, id) == Some(i),
{
    field_position_found(fields, id);
}

/// Nothing is found where no field has the id.
pub proof fn field_position_none(fields: Seq<FieldView>, id: FieldId)
    requires
        forall|j: int| 0 <= j < fields.len() ==> (#[trigger] fields[j]).id != id,
    ensures
        field_position(fields, id) is None,
{
    field_position_found(fields, id);
}

impl Database {
    /// Where the first field with this id stands.
    pub(crate) fn position(&self, id: FieldId) -> (position: Option<usize>)
        ensures
            match position {
                Some(i) => field_position(self@.fields, id) == Some(i as int) && i
                    < self.fields.len(),
                None => field_position(self@.fields, id) is None,
            },
    {
        let mut i: usize = 0;
        while i < self.fields.len()
            invariant
                i <= self.fields.len(),
                forall|j: int| 0 <= j < i ==> (#[trigger] self@.fields[j]).id != id,
            decreases self.fields.len() - i,
        {
            assert(self@.fields[i as int] == self.fields@[i as int]@);
            if self.fields[i].id == id {
                proof {
                    field_position_is(self@.fields, id, i as int);
                }
                return Some(i);
            }
            i += 1;
        }
        proof {
            field_position_none(self@.fields, id);
        }
        None
    }

    /// The first field with this id.
    pub fn field(&self, id: FieldId) -> (field: Option<&FieldDefinition>)
        ensures
            crate::text::view_of(field) == field_of(self@.fields, id),
    {
        match self.position(id) {
            Some(i) => Some(&self.fields[i]),
            None => None,
        }
    }

    /// The first field with this id, to change it.
    pub(crate) fn field_mut(&mut self, id: FieldId) -> (field: Option<&mut FieldDefinition>)
        ensures
            match field {
                Some(field) => {
                    &&& field_position(old(self)@.fields, id) matches Some(i)
                    &&& *field == old(self).fields@[i]
                    &&& final(self).id == old(self).id
                    &&& final(self).name == old(self).name
                    &&& final(self).fields@ == old(self).fields@.update(i, *final(field))
                },
                None => field_position(old(self)@.fields, id) is None && *final(self) == *old(self),
            },
    {
        match self.position(id) {
            Some(i) => Some(&mut self.fields[i]),
            None => None,
        }
    }
}

} // verus!
