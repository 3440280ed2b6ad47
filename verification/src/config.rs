use crate::paths::{file_name_of, joined, name_path, parent_of, FilePath, PartModel};
use crate::planner::DEFAULT_TEMPLATE;
use crate::text::{append_chars, chars_of, push_padded, string_of, zero_padded};
use vstd::prelude::*;

verus! {

/// The settings that are kept between runs.
#[derive(Debug, Clone)]
pub struct AppConfig {
    pub template: String,
    pub exclude_strings: Vec<String>,
    pub dedupe_same_maker: bool,
    pub backup_originals: bool,
    pub raw_parent_if_missing: bool,
}

/// What `dedupe_same_maker` is where stored settings do not say.
pub fn default_true() -> (r: bool)
    ensures
        r,
{
    true
}

impl Default for AppConfig {
    fn default() -> (out: AppConfig)
        ensures
            out.template@ == DEFAULT_TEMPLATE@,
            out.exclude_strings@.len() == 0,
            out.dedupe_same_maker,
            !out.backup_originals,
            !out.raw_parent_if_missing,
    {
        AppConfig {
            template: DEFAULT_TEMPLATE.to_string(),
            exclude_strings: Vec::new(),
            dedupe_same_maker: default_true(),
            backup_originals: false,
            raw_parent_if_missing: false,
        }
    }
}

/// Where the settings and the journal are kept.
#[derive(Debug, Clone)]
pub struct AppPaths {
    pub config_dir: FilePath,
    pub config_path: FilePath,
    pub undo_path: FilePath,
}

/// The paths of the settings file and of the journal in the directory `config_dir`.
pub fn app_paths_in(config_dir: FilePath) -> (out: AppPaths)
    ensures
        out.config_dir == config_dir,
        out.config_path@ == joined(config_dir@, name_path("config.toml"@)),
        out.undo_path@ == joined(config_dir@, name_path("undo-last.json"@)),
{
    let config_path = config_dir.join_name("config.toml");
    let undo_path = config_dir.join_name("undo-last.json");
    AppPaths { config_dir, config_path, undo_path }
}

/// The name of the file that a state file is written to before it takes its place: a dot, the
/// name of the state file (or `fallback` where it has none), a dot, the number of the process,
/// and `.tmp`.
pub open spec fn atomic_temp_name(target: Seq<PartModel>, fallback: Seq<char>, process: nat) -> Seq<
    char,
> {
    let name = match file_name_of(target) {
        Some(n) => n,
        None => fallback,
    };
    seq!['.'] + name + seq!['.'] + zero_padded(process, 1) + ".tmp"@
}

/// The path of that file: beside the state file.
pub open spec fn atomic_temp_path_of(target: Seq<PartModel>, fallback: Seq<char>, process: nat) -> Seq<
    PartModel,
> {
    let parent = match parent_of(target) {
        Some(p) => p,
        None => Seq::empty(),
    };
    joined(parent, name_path(atomic_temp_name(target, fallback, process)))
}

/// The path to which a state file is written before it is renamed to `target_path`.
pub fn atomic_temp_path(target_path: &FilePath, fallback: &str, process: u32) -> (out: FilePath)
    ensures
        out@ == atomic_temp_path_of(target_path@, fallback@, process as nat),
{
    let file_name = match target_path.file_name() {
        Some(n) => chars_of(n.as_str()),
        None => chars_of(fallback),
    };
    let mut name: Vec<char> = Vec::new();
    name.push('.');
    append_chars(&mut name, &file_name);
    name.push('.');
    push_padded(&mut name, process as u128, 1);
    append_chars(&mut name, &chars_of(".tmp"));
    proof {
        let a = seq!['.'] + file_name@;
        assert(seq!['.'] =~= Seq::<char>::empty().push('.'));
        assert(a.push('.') == a + seq!['.']);
    }
    let parent = match target_path.parent() {
        Some(p) => p,
        None => FilePath::new(),
    };
    parent.join_name(string_of(&name).as_str())
}

} // verus!
