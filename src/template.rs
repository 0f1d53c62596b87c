//! Names of the scaffold templates that new migrations are written from.

use vstd::prelude::*;

use crate::id::MigrationId;

verus! {

broadcast use vstd::string::group_string_axioms;

/// One of the four scaffold templates.
#[derive(Debug, Copy, Clone, PartialEq, Eq, Structural)]
pub enum TemplateId {
    InitUp,
    InitDown,
    NewUp,
    NewDown,
}

/// The file name of the template `id`.
pub open spec fn template_file(id: TemplateId) -> Seq<char> {
    match id {
        TemplateId::InitUp => seq!['i', 'n', 'i', 't', '.', 'u', 'p', '.', 's', 'q', 'l'],
        TemplateId::InitDown => seq!['i', 'n', 'i', 't', '.', 'd', 'o', 'w', 'n', '.', 's', 'q', 'l'],
        TemplateId::NewUp => seq!['n', 'e', 'w', '.', 'u', 'p', '.', 's', 'q', 'l'],
        TemplateId::NewDown => seq!['n', 'e', 'w', '.', 'd', 'o', 'w', 'n', '.', 's', 'q', 'l'],
    }
}

impl TemplateId {
    /// The template's file name.
    pub fn name(&self) -> (r: &'static str)
        ensures
            r@ == template_file(*self),
    {
        proof {
            reveal_strlit("init.up.sql");
            reveal_strlit("init.down.sql");
            reveal_strlit("new.up.sql");
            reveal_strlit("new.down.sql");
        }
        let r = match self {
            TemplateId::InitUp => "init.up.sql",
            TemplateId::InitDown => "init.down.sql",
            TemplateId::NewUp => "new.up.sql",
            TemplateId::NewDown => "new.down.sql",
        };
        assert(r@ =~= template_file(*self));
        r
    }
}

/// Where a template is looked up: the default set, or a named set in a
/// subdirectory of that name.
#[derive(Debug, Clone, PartialEq, Eq)]
pub enum TemplateGroup {
    Default,
    Named(String),
}

impl Default for TemplateGroup {
    fn default() -> (r: TemplateGroup)
        ensures
            r == TemplateGroup::Default,
    {
        TemplateGroup::Default
    }
}

/// The name under which the template `id` of `group` is registered.
pub open spec fn template_key(group: TemplateGroup, id: TemplateId) -> Seq<char> {
    match group {
        TemplateGroup::Named(name) => name@ + seq!['/'] + template_file(id),
        TemplateGroup::Default => template_file(id),
    }
}

impl TemplateGroup {
    /// The name under which the template `id` of this group is registered:
    /// `<group>/<file>` for a named group, the file name for the default one.
    pub fn join(&self, id: TemplateId) -> (r: String)
        ensures
            r@ == template_key(*self, id),
    {
        match self {
            TemplateGroup::Named(name) => {
                let mut r = name.clone();
                proof {
                    reveal_strlit("/");
                }
                r.append("/");
                r.append(id.name());
                r
            },
            TemplateGroup::Default => id.name().to_owned(),
        }
    }
}

/// What a template is rendered with.
#[derive(Debug, Clone, PartialEq, Eq)]
pub struct TemplateContext {
    pub id: MigrationId,
    pub name: String,
}

/// Why the template directory could not be listed.
#[derive(Debug)]
pub struct TemplateDirError {
    pub path: String,
    pub err: std::io::Error,
}

/// Why a template file could not be read.
#[derive(Debug)]
pub struct TemplateReadError {
    pub path: String,
    pub err: std::io::Error,
}

} // verus!
