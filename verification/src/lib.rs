pub mod apply;
pub mod atomicity;
pub mod backup;
pub mod config;
pub mod dates;
pub mod exif_reader;
pub mod matcher;
pub mod metadata;
pub mod paths;
pub mod planner;
pub mod sanitize;
pub mod template;
pub mod text;
pub mod undo;
pub mod xmp_reader;

pub use apply::{ApplyOptions, ApplyResult, UndoResult};
pub use config::{AppConfig, AppPaths};
pub use metadata::{MetadataSource, PhotoMetadata};
pub use planner::{
    render_preview_sample, PlanOptions, RenameCandidate, RenamePlan, RenameStats, DEFAULT_TEMPLATE,
};
pub use template::{
    parse_template, render_template, render_template_with_options, validate_template,
    TemplateError, TemplatePart,
};
