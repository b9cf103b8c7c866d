//! Saving a task's context: the text of the saved document and of the
//! answer. Expanding globs, reading files and writing the document happen
//! outside the library.
use vstd::prelude::*;
use crate::text::{from_chars, join, lines, push_str, starts_with, str_starts_with};

verus! {

/// The tool that saves a task's context.
#[derive(Debug, Clone, Copy)]
pub struct ContextSave {}

/// What to save: the task, its project, and the globs of its relevant files.
#[derive(Debug, Clone)]
pub struct ContextSaveParams {
    /// Task ID
    pub id: String,
    /// Project root path
    pub project_root_path: String,
    /// Task description
    pub description: String,
    /// Relevant file globs
    pub relevant_file_globs: Vec<String>,
}

/// An absolute glob is used as it is; any other is taken under the project
/// root.
pub open spec fn pattern_for(root: Seq<char>, glob: Seq<char>) -> Seq<char> {
    if starts_with(glob, "/"@) {
        glob
    } else {
        root + "/"@ + glob
    }
}

/// The head of the saved document: project root, description and globs.
pub open spec fn document_head(p: ContextSaveParams) -> Seq<char> {
    "# PROJECT ROOT = "@ + p.project_root_path@ + "\n"@ + p.description@ + "\n\n"@
        + "# Relevant file paths\n"@ + join(p.relevant_file_globs@.map_values(|g: String| g@), ", "@)
        + "\n\n"@ + "# Relevant Files:\n"@
}

/// The lines written for each glob that could not be parsed.
pub open spec fn warning_lines(ws: Seq<(String, String)>) -> Seq<char>
    decreases ws.len(),
{
    if ws.len() == 0 {
        seq![]
    } else {
        warning_lines(ws.drop_last()) + "Warning: Invalid glob pattern "@ + ws.last().0@ + ": "@
            + ws.last().1@ + "\n"@
    }
}

/// The section written for each file read: its path and content.
pub open spec fn file_sections(fs: Seq<(String, String)>) -> Seq<char>
    decreases fs.len(),
{
    if fs.len() == 0 {
        seq![]
    } else {
        file_sections(fs.drop_last()) + "\n# File: "@ + fs.last().0@ + "\n```\n"@ + fs.last().1@
            + "\n```\n"@
    }
}

impl ContextSave {
    pub fn new() -> (r: Self) {
        ContextSave {}
    }

    /// How many of the files the globs found are read into the document:
    /// the first ten.
    pub fn files_to_include(&self, found: usize) -> (r: usize)
        ensures
            r == if found < 10 {
                found
            } else {
                10
            },
    {
        if found < 10 {
            found
        } else {
            10
        }
    }

    /// The glob expanded for a pattern of the task.
    pub fn glob_pattern(&self, project_root: &str, glob: &str) -> (r: String)
        ensures
            r@ == pattern_for(project_root@, glob@),
    {
        if str_starts_with(glob, "/") {
            return crate::text::owned(glob);
        }
        let mut v: Vec<char> = Vec::new();
        push_str(&mut v, project_root);
        push_str(&mut v, "/");
        push_str(&mut v, glob);
        from_chars(v.as_slice())
    }

    /// The saved document: the head, a warning for each glob that could
    /// not be parsed (pattern and error), then each file read (path and
    /// content).
    pub fn context_document(
        &self,
        params: &ContextSaveParams,
        glob_warnings: &Vec<(String, String)>,
        files: &Vec<(String, String)>,
    ) -> (r: String)
        ensures
            r@ == document_head(*params) + warning_lines(glob_warnings@) + file_sections(files@),
    {
        let mut v: Vec<char> = Vec::new();
        push_str(&mut v, "# PROJECT ROOT = ");
        push_str(&mut v, params.project_root_path.as_str());
        push_str(&mut v, "\n");
        push_str(&mut v, params.description.as_str());
        push_str(&mut v, "\n\n");
        push_str(&mut v, "# Relevant file paths\n");
        let sep = crate::text::to_chars(", ");
        let globs = crate::text::join_strings(params.relevant_file_globs.as_slice(), sep.as_slice());
        crate::text::push_chars(&mut v, globs.as_slice());
        push_str(&mut v, "\n\n");
        push_str(&mut v, "# Relevant Files:\n");
        let ghost head = v@;
        let mut i: usize = 0;
        while i < glob_warnings.len()
            invariant
                i <= glob_warnings.len(),
                v@ == head + warning_lines(glob_warnings@.take(i as int)),
            decreases glob_warnings.len() - i,
        {
            proof {
                assert(glob_warnings@.take(i + 1).drop_last() =~= glob_warnings@.take(i as int));
            }
            push_str(&mut v, "Warning: Invalid glob pattern ");
            push_str(&mut v, glob_warnings[i].0.as_str());
            push_str(&mut v, ": ");
            push_str(&mut v, glob_warnings[i].1.as_str());
            push_str(&mut v, "\n");
            i += 1;
            proof {
                assert(v@ =~= head + warning_lines(glob_warnings@.take(i as int)));
            }
        }
        proof {
            assert(glob_warnings@.take(glob_warnings.len() as int) =~= glob_warnings@);
        }
        let ghost mid = v@;
        let mut k: usize = 0;
        while k < files.len()
            invariant
                k <= files.len(),
                v@ == mid + file_sections(files@.take(k as int)),
            decreases files.len() - k,
        {
            proof {
                assert(files@.take(k + 1).drop_last() =~= files@.take(k as int));
            }
            push_str(&mut v, "\n# File: ");
            push_str(&mut v, files[k].0.as_str());
            push_str(&mut v, "\n```\n");
            push_str(&mut v, files[k].1.as_str());
            push_str(&mut v, "\n```\n");
            k += 1;
            proof {
                assert(v@ =~= mid + file_sections(files@.take(k as int)));
            }
        }
        proof {
            assert(files@.take(files.len() as int) =~= files@);
            assert(v@ =~= document_head(*params) + warning_lines(glob_warnings@) + file_sections(files@));
        }
        from_chars(v.as_slice())
    }

    /// The description's first line (empty when it has none), as the task
    /// index records it.
    pub fn summary_line(&self, description: &str) -> (r: String)
        ensures
            lines(description@).len() == 0 ==> r@.len() == 0,
            lines(description@).len() > 0 ==> r@ == lines(description@)[0],
    {
        let ls = crate::text::split_lines(description);
        if ls.len() == 0 {
            return String::new();
        }
        proof {
            assert(ls.deep_view()[0] == ls@[0]@);
        }
        ls[0].clone()
    }

    /// The answer once the context is saved in `context_file`.
    pub fn saved_message(&self, context_file: &str, id: &str) -> (r: String)
        ensures
            r@ == "Context saved to "@ + context_file@ + "\n\n"@
                + "To resume the task in a new conversation, use:\n```\nResume task: "@ + id@
                + "\n```"@ + "\n\nTask ID: "@ + id@,
    {
        let mut v: Vec<char> = Vec::new();
        push_str(&mut v, "Context saved to ");
        push_str(&mut v, context_file);
        push_str(&mut v, "\n\n");
        push_str(&mut v, "To resume the task in a new conversation, use:\n```\nResume task: ");
        push_str(&mut v, id);
        push_str(&mut v, "\n```");
        push_str(&mut v, "\n\nTask ID: ");
        push_str(&mut v, id);
        from_chars(v.as_slice())
    }
}

impl Default for ContextSave {
    fn default() -> (r: Self) {
        ContextSave {}
    }
}

} // verus!
