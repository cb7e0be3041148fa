//! What a language profile makes of one file.

use super::{PublicName, PublicNameView};
use super::public_name::name_views;
use vstd::prelude::*;

verus! {

#[derive(Debug, Clone)]
pub struct Module {
    /// Exported names in source order, deduped by name.
    pub names: Vec<PublicName>,
    /// The parser hit syntax it could not make sense of, so `names` may be
    /// incomplete. Reporting that beats reporting its consequences.
    pub has_syntax_errors: bool,
    /// Lines carrying something other than whitespace and comments.
    pub code_lines: usize,
}

pub struct ModuleView {
    pub names: Seq<PublicNameView>,
    pub has_syntax_errors: bool,
    pub code_lines: usize,
}

impl View for Module {
    type V = ModuleView;

    open spec fn view(&self) -> ModuleView {
        ModuleView {
            names: name_views(self.names@),
            has_syntax_errors: self.has_syntax_errors,
            code_lines: self.code_lines,
        }
    }
}

/// A module with nothing in it.
pub open spec fn empty_module() -> ModuleView {
    ModuleView { names: Seq::empty(), has_syntax_errors: false, code_lines: 0 }
}

impl Default for Module {
    fn default() -> (res: Module)
        ensures
            res@ == empty_module(),
    {
        let res = Module { names: Vec::new(), has_syntax_errors: false, code_lines: 0 };
        assert(res@.names =~= Seq::<PublicNameView>::empty());
        res
    }
}

} // verus!
