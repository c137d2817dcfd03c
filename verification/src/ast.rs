//! The model that parsing produces: controllers and their handler methods.

use vstd::prelude::*;
use crate::text::{is_ident_char, is_ident_start, is_whitespace};
use crate::token::kind_of;

verus! {

/// A handler method of a controller, as the source declares it.
#[derive(Debug, PartialEq, Eq, Clone)]
pub struct ControllerMethod {
    /// Name of the mapping annotation, without the marker `@`.
    pub annotation: String,
    /// The annotation's route argument, without its quotes; `None` where it has none.
    pub annotation_args: Option<String>,
    /// The line that declares the method, trimmed.
    pub header: String,
}

/// A controller class.
#[derive(Debug, PartialEq, Eq, Clone)]
pub struct Controller {
    /// Name of the controller class.
    pub name: String,
    /// The argument of the class-level `@RequestMapping`; `None` where there is none.
    pub class_mapping: Option<String>,
    /// The handler methods, in the order of the source.
    pub methods: Vec<ControllerMethod>,
}

/// What a `ControllerMethod` holds, as sequences of characters.
pub struct MethodModel {
    pub annotation: Seq<char>,
    pub annotation_args: Option<Seq<char>>,
    pub header: Seq<char>,
}

/// What a `Controller` holds, as sequences of characters.
pub struct ControllerModel {
    pub name: Seq<char>,
    pub class_mapping: Option<Seq<char>>,
    pub methods: Seq<MethodModel>,
}

/// The text is an identifier: a letter or an underscore, then letters, digits and
/// underscores.
pub open spec fn is_identifier(name: Seq<char>) -> bool {
    &&& name.len() > 0
    &&& is_ident_start(name[0])
    &&& forall|k: int| 0 <= k < name.len() ==> is_ident_char(#[trigger] name[k])
}

impl MethodModel {
    /// What holds of every handler that parsing gives: its annotation is one of the
    /// six mapping annotations, and its header is one line, not empty, with no
    /// whitespace at either end.
    pub open spec fn well_formed(self) -> bool {
        &&& kind_of(self.annotation) is Some
        &&& self.header.len() > 0
        &&& !is_whitespace(self.header.first())
        &&& !is_whitespace(self.header.last())
        &&& forall|k: int| 0 <= k < self.header.len() ==> #[trigger] self.header[k] != '\n'
    }
}

impl ControllerModel {
    /// What holds of every controller that parsing gives: its name is an identifier,
    /// and each of its handlers is well formed.
    pub open spec fn well_formed(self) -> bool {
        &&& is_identifier(self.name)
        &&& forall|i: int|
            0 <= i < self.methods.len() ==> (#[trigger] self.methods[i]).well_formed()
    }
}

/// The characters of an optional string.
pub open spec fn text_of(s: Option<String>) -> Option<Seq<char>> {
    match s {
        Some(t) => Some(t@),
        None => None,
    }
}

/// The models of a list of methods, in order.
pub open spec fn method_models(methods: Seq<ControllerMethod>) -> Seq<MethodModel> {
    methods.map_values(|m: ControllerMethod| m@)
}

/// The models of a list of controllers, in order.
pub open spec fn controller_models(controllers: Seq<Controller>) -> Seq<ControllerModel> {
    controllers.map_values(|c: Controller| c@)
}

impl View for ControllerMethod {
    type V = MethodModel;

    open spec fn view(&self) -> MethodModel {
        MethodModel {
            annotation: self.annotation@,
            annotation_args: text_of(self.annotation_args),
            header: self.header@,
        }
    }
}

impl View for Controller {
    type V = ControllerModel;

    open spec fn view(&self) -> ControllerModel {
        ControllerModel {
            name: self.name@,
            class_mapping: text_of(self.class_mapping),
            methods: method_models(self.methods@),
        }
    }
}

} // verus!
