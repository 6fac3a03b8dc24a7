//! What an editor workspace tells about the moment a prompt is written.
use vstd::prelude::*;
use vstd::utf8::encode_utf8;

verus! {

/// The file that is open in the editor.
#[derive(Debug, Clone)]
pub struct ActiveFile {
    /// The file's path as text.
    pub path: String,
    pub language: Option<String>,
    pub cursor_line: Option<usize>,
}

/// The text that is selected in the editor.
#[derive(Debug, Clone)]
pub struct Selection {
    pub content: String,
    pub start_line: usize,
    pub end_line: usize,
}

/// The project that the workspace belongs to.
#[derive(Debug, Clone)]
pub struct ProjectInfo {
    pub name: String,
    /// The project's root directory as text.
    pub root_path: String,
    pub language: Option<String>,
}

/// An edit made a while ago.
#[derive(Debug, Clone)]
pub struct RecentEdit {
    /// The edited file's path as text.
    pub file: String,
    pub description: String,
    pub timestamp: i64,
}

/// The context of a prompt.
#[derive(Debug, Clone)]
pub struct ZedContext {
    pub active_file: Option<ActiveFile>,
    pub selected_text: Option<Selection>,
    pub project_info: Option<ProjectInfo>,
    pub recent_edits: Vec<RecentEdit>,
}

/// The tokens that a text is taken to cost: a quarter of its length in
/// bytes, as UTF-8.
pub open spec fn token_cost(text: Seq<char>) -> nat {
    encode_utf8(text).len() / 4
}

fn cost(text: &String) -> (tokens: usize)
    ensures
        tokens == token_cost(text@),
        tokens <= usize::MAX / 4,
{
    text.as_str().as_bytes().len() / 4
}

impl ZedContext {
    /// A context without recent edits.
    pub fn from_zed_workspace(
        active_file: Option<ActiveFile>,
        selected_text: Option<Selection>,
        project_info: Option<ProjectInfo>,
    ) -> (context: Self)
        ensures
            context.active_file == active_file,
            context.selected_text == selected_text,
            context.project_info == project_info,
            context.recent_edits@.len() == 0,
    {
        Self { active_file, selected_text, project_info, recent_edits: Vec::new() }
    }

    /// The estimate that `estimated_tokens` gives.
    pub open spec fn token_estimate(&self) -> nat {
        (match self.active_file {
            Some(file) => token_cost(file.path@) + 5,
            None => 0,
        }) + (match self.selected_text {
            Some(selection) => token_cost(selection.content@),
            None => 0,
        }) + (match self.project_info {
            Some(project) => token_cost(project.name@) + 5,
            None => 0,
        })
    }

    /// An estimate of the tokens that this context costs: a quarter of the
    /// byte length of the file's path, of the selection and of the project's
    /// name, and five more for the file and for the project.
    pub fn estimated_tokens(&self) -> (tokens: usize)
        ensures
            tokens == self.token_estimate(),
    {
        let file: usize = match &self.active_file {
            Some(file) => cost(&file.path) + 5,
            None => 0,
        };
        let selection: usize = match &self.selected_text {
            Some(selection) => cost(&selection.content),
            None => 0,
        };
        let project: usize = match &self.project_info {
            Some(project) => cost(&project.name) + 5,
            None => 0,
        };
        file + selection + project
    }

    /// Whether the context can improve a prompt: it names a file or holds a
    /// selection.
    pub fn is_useful(&self) -> (useful: bool)
        ensures
            useful == (self.active_file is Some || self.selected_text is Some),
    {
        self.active_file.is_some() || self.selected_text.is_some()
    }
}

impl Default for ZedContext {
    fn default() -> (context: Self)
        ensures
            context.active_file is None,
            context.selected_text is None,
            context.project_info is None,
            context.recent_edits@.len() == 0,
    {
        Self { active_file: None, selected_text: None, project_info: None, recent_edits: Vec::new() }
    }
}

} // verus!
