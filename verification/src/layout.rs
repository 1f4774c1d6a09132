//! What the app keeps in its directory.

use crate::text::texts;
use vstd::prelude::*;

verus! {

/// The memory that a new directory starts with.
pub open spec fn first_memory() -> Seq<char> {
    "# Terminology\n\nmtg -> ミーティング\ntodo -> TODO\n\n# Style\n\nconcise sentences\n\n# Names\n\nzed -> Zed\ntauri -> Tauri\n"@
}

/// The memory that a new directory starts with.
pub fn default_memory() -> (memory: String)
    ensures
        memory@ == first_memory(),
{
    "# Terminology\n\nmtg -> ミーティング\ntodo -> TODO\n\n# Style\n\nconcise sentences\n\n# Names\n\nzed -> Zed\ntauri -> Tauri\n".to_owned()
}

/// Where things stand: the app's directory in the home directory, and the rest in the app's
/// directory. A directory below that is given by the names on the way to it.
#[derive(Debug, Clone, PartialEq, Eq)]
pub struct Layout {
    pub base: String,
    pub config: String,
    pub memory: String,
    pub database: String,
    pub codex_workdir: String,
    pub ops: Vec<String>,
    pub models: Vec<String>,
}

/// Where things stand.
pub fn layout() -> (layout: Layout)
    ensures
        layout.base@ == ".romaji-agent"@,
        layout.config@ == "config.toml"@,
        layout.memory@ == "memory.md"@,
        layout.database@ == "db.sqlite"@,
        layout.codex_workdir@ == "codex-workdir"@,
        texts(layout.ops@) == seq!["ops"@],
        texts(layout.models@) == seq!["models"@, "lfm"@],
{
    let ops: Vec<String> = vec!["ops".to_owned()];
    assert(texts(ops@) =~= seq!["ops"@]);
    let models: Vec<String> = vec!["models".to_owned(), "lfm".to_owned()];
    assert(texts(models@) =~= seq!["models"@, "lfm"@]);
    Layout {
        base: ".romaji-agent".to_owned(),
        config: "config.toml".to_owned(),
        memory: "memory.md".to_owned(),
        database: "db.sqlite".to_owned(),
        codex_workdir: "codex-workdir".to_owned(),
        ops,
        models,
    }
}

/// What is still to be written into the app's directory.
#[derive(Debug, Clone, PartialEq, Eq)]
pub struct LayoutPlan {
    /// Whether to write the default configuration.
    pub write_config: bool,
    /// The memory to write.
    pub memory: Option<String>,
}

/// What to write into the app's directory: nothing over a file that is there.
pub fn ensure_layout(config_exists: bool, memory_exists: bool) -> (plan: LayoutPlan)
    ensures
        plan.write_config == !config_exists,
        match plan.memory {
            Some(memory) => !memory_exists && memory@ == first_memory(),
            None => memory_exists,
        },
{
    LayoutPlan {
        write_config: !config_exists,
        memory: if memory_exists {
            None
        } else {
            Some(default_memory())
        },
    }
}

} // verus!
