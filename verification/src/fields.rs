//! New fields in the classes of the game.

use vstd::prelude::*;
use hlbc::types::{ObjField, RefField, RefString, RefType, Type};
use crate::lookup::{find_type_index_by_name, FieldError};
use crate::module::{ClassView, Module, ModuleView, TypeView};

verus! {

/// The class `class` with a field behind those it has.
pub open spec fn with_field(class: ClassView, field: ObjField) -> ClassView {
    ClassView {
        own_fields: class.own_fields.push(field),
        fields: class.fields.push(field),
        ..class
    }
}

impl ModuleView {
    /// The program after a field `field` of the type `t` has been added to the class `class`,
    /// and the number of the field.
    pub open spec fn add_field(self, class: Seq<char>, field: Seq<char>, t: RefType) -> (
        ModuleView,
        Result<RefField, FieldError>,
    ) {
        match self.class_index(class) {
            None => (self, Err(FieldError::NoClass)),
            Some(i) => match self.types[i] {
                TypeView::Class(c) => (
                    self.with_string(field).with_type(
                        i,
                        TypeView::Class(
                            with_field(
                                c,
                                ObjField { name: RefString(self.strings.len() as usize), t },
                            ),
                        ),
                    ),
                    Ok(RefField(c.fields.len() as usize)),
                ),
                _ => (self, Err(FieldError::NoClass)),
            },
        }
    }
}

/// Adds a field to a class. The game's own code knows nothing of the field, and every new object
/// of the class starts with it zeroed.
///
/// The class must have no subclasses: the fields of a class are numbered after those that it
/// inherits, so a field here would move every field of a subclass.
pub fn add_bool_field(
    code: &mut Module,
    class_name: &str,
    field_name: &str,
    bool_ty: RefType,
) -> (added: Result<RefField, FieldError>)
    ensures
        (final(code)@, added) == old(code)@.add_field(class_name@, field_name@, bool_ty),
{
    let type_index = match find_type_index_by_name(code, class_name) {
        Some(i) => i,
        None => return Err(FieldError::NoClass),
    };
    let ghost before = code@;
    let name = code.push_string(field_name);
    let t = &mut code.types[type_index];
    if let Type::Obj(obj) = t {
        obj.own_fields.push(ObjField { name: RefString(name), t: bool_ty });
        let at = obj.fields.len();
        obj.fields.push(ObjField { name: RefString(name), t: bool_ty });
        proof {
            let after = before.add_field(class_name@, field_name@, bool_ty).0;
            assert(code@.types =~= after.types);
            assert(code@ =~= after);
        }
        Ok(RefField(at))
    } else {
        Err(FieldError::NoClass)
    }
}

} // verus!
