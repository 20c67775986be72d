//! Keywords are fields of the root block: the identifier `true` in the
//! code is an ordinary reference to a field, found in the root's scope.
use crate::block::Field;
use crate::identifiers::{
    BREAK, CATCH, CONTINUE, ELSE, FALSE, FINALLY, FOREACH, IF, IdentifierIndex, THROW, TRUE, TRY, WHILE,
    WELL_KNOWN_COUNT, well_known_names,
};
use crate::interner::Interner;
use vstd::prelude::*;

verus! {

/// The names of the root's fields, in field order.
pub open spec fn spec_field_names() -> Seq<u32> {
    seq![TRUE, FALSE, IF, ELSE, WHILE, FOREACH, BREAK, CONTINUE, TRY, CATCH, FINALLY, THROW]
}

/// The names of the root's fields, in field order.
pub fn field_names() -> (names: Vec<IdentifierIndex>)
    ensures
        names@.len() == spec_field_names().len(),
        forall|i: int| 0 <= i < names@.len() ==> (#[trigger] names@[i]).0 == spec_field_names()[i],
{
    let names = vec![
        IdentifierIndex(TRUE),
        IdentifierIndex(FALSE),
        IdentifierIndex(IF),
        IdentifierIndex(ELSE),
        IdentifierIndex(WHILE),
        IdentifierIndex(FOREACH),
        IdentifierIndex(BREAK),
        IdentifierIndex(CONTINUE),
        IdentifierIndex(TRY),
        IdentifierIndex(CATCH),
        IdentifierIndex(FINALLY),
        IdentifierIndex(THROW),
    ];
    names
}

/// The root's fields, as a new AST declares them: named by the keywords,
/// not public.
pub fn root_fields() -> (fields: Vec<Field>)
    ensures
        fields@.len() == spec_field_names().len(),
        forall|i: int| 0 <= i < fields@.len() ==> (#[trigger] fields@[i]).name.0 == spec_field_names()[i]
            && !fields@[i].is_public,
{
    let names = field_names();
    let mut fields: Vec<Field> = Vec::new();
    let mut i: usize = 0;
    while i < names.len()
        invariant
            i <= names@.len(),
            names@.len() == spec_field_names().len(),
            forall|k: int| 0 <= k < names@.len() ==> (#[trigger] names@[k]).0 == spec_field_names()[k],
            fields@.len() == i,
            forall|k: int| 0 <= k < i ==> (#[trigger] fields@[k]).name.0 == spec_field_names()[k] && !fields@[k].is_public,
        decreases names@.len() - i,
    {
        fields.push(Field { name: names[i], is_public: false });
        i = i + 1;
    }
    fields
}

/// The identifier pool every AST starts with: the well-known identifiers.
pub fn identifiers() -> (identifiers: Interner)
    ensures
        crate::interner::interned(&identifiers) == well_known_names(),
{
    crate::identifiers::intern_all()
}

} // verus!
