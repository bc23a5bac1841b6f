//! What the stages of a pipeline put out, remembering it, and running stages.
pub mod batch;
pub mod cache;
pub mod output;
pub mod run_laws;
pub mod shell;
pub mod shell_laws;
pub mod shown;
pub mod stream;
pub mod stream_laws;

pub use self::batch::execute_pipeline_stages;
pub use self::cache::{ExecutorCache, PreFillEntry};
pub use self::output::{CombinedLine, OutputMode, StageOutput};
pub use self::shell::is_shell_path;
pub use self::stream::StreamMsg;
