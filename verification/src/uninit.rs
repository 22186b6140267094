//! The `uninit` subcommand: the decisions that undo `init` in a project.
//!
//! The default `.facts` sheet and the bundled skills under `.agents/skills/`
//! are removed; a `.facts` sheet that still holds facts is only removed when
//! forced. Running it twice does no harm.
use vstd::prelude::*;
use crate::text::{all_ws, chars_of, is_blank, string_of};
use crate::init::{without_agent_docs, without_section_spec};

verus! {

/// One step of removal: whether to remove the file, and the line that reports it.
pub struct Removal {
    pub remove: bool,
    pub message: String,
}

/// The names of the skills that `init` installs and `uninit` removes.
pub fn skill_names() -> (r: Vec<&'static str>)
    ensures
        r@.len() == 3,
        r@[0]@ == "facts"@,
        r@[1]@ == "facts-discover"@,
        r@[2]@ == "facts-implement"@,
{
    vec!["facts", "facts-discover", "facts-implement"]
}

/// What to do with the default `.facts` sheet, whose content is `facts` when it
/// exists: a sheet with anything but white space in it is kept unless `force`.
pub fn run(force: bool, facts: Option<&str>) -> (r: Result<Removal, String>)
    ensures
        match facts {
            None => r matches Ok(s) && !s.remove && s.message@ == "  skip  .facts (not found)"@,
            Some(c) => if !all_ws(c@) && !force {
                r matches Err(e) && e@ == ".facts has content; use --force to delete"@
            } else {
                r matches Ok(s) && s.remove && s.message@ == "  remove  .facts"@
            },
        },
{
    match facts {
        None => Ok(Removal { remove: false, message: string_of(chars_of("  skip  .facts (not found)").as_slice()) }),
        Some(c) => {
            let v = chars_of(c);
            if !is_blank(v.as_slice()) && !force {
                Err(string_of(chars_of(".facts has content; use --force to delete").as_slice()))
            } else {
                Ok(Removal { remove: true, message: string_of(chars_of("  remove  .facts").as_slice()) })
            }
        },
    }
}

/// What to do with the installed skill `name`, given whether its `SKILL.md` exists.
pub fn skill_removal(name: &str, exists: bool) -> (r: Removal)
    ensures
        r.remove == exists,
        exists ==> r.message@ == "  remove  .agents/skills/"@ + name@ + "/SKILL.md"@,
        !exists ==> r.message@ == "  skip  .agents/skills/"@ + name@ + "/SKILL.md (not found)"@,
{
    let mut m = if exists {
        chars_of("  remove  .agents/skills/")
    } else {
        chars_of("  skip  .agents/skills/")
    };
    let mut n = chars_of(name);
    let mut t = if exists {
        chars_of("/SKILL.md")
    } else {
        chars_of("/SKILL.md (not found)")
    };
    m.append(&mut n);
    m.append(&mut t);
    Removal { remove: exists, message: string_of(m.as_slice()) }
}

/// What removing the facts section does to an agent doc: its new content, and
/// whether the file goes away because nothing else was in it.
pub struct DocRemoval {
    pub delete: bool,
    pub content: String,
    pub message: String,
}

/// Remove the facts section from the agent doc `name` with content `content`;
/// `None` when it has no complete section.
pub fn doc_removal(name: &str, content: &str) -> (r: Option<DocRemoval>)
    ensures
        match (r, without_section_spec(content@)) {
            (Some(d), Some(v)) => {
                &&& d.content@ == v
                &&& d.delete == (v.len() == 0)
                &&& d.message@ == if v.len() == 0 {
                    "  remove  "@ + name@ + " (was only facts section)"@
                } else {
                    "  update  "@ + name@ + " (removed facts section)"@
                }
            },
            (None, None) => true,
            _ => false,
        },
{
    match without_agent_docs(content) {
        None => None,
        Some(v) => {
            let delete = v.as_str().is_empty();
            let mut m = if delete {
                chars_of("  remove  ")
            } else {
                chars_of("  update  ")
            };
            let mut n = chars_of(name);
            let mut t = if delete {
                chars_of(" (was only facts section)")
            } else {
                chars_of(" (removed facts section)")
            };
            m.append(&mut n);
            m.append(&mut t);
            Some(DocRemoval { delete, content: v, message: string_of(m.as_slice()) })
        },
    }
}

} // verus!
