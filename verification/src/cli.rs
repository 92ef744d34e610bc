//! Command-line interface types for the Event Modeler: the commands and
//! their options, holding paths whose kind and existence were checked
//! when the arguments were read.

use crate::infrastructure::types::{
    AnyFile, Directory, EventModelFile, Exists, File, MaybeExists, NonEmpty, Port, TypedPath,
};
use vstd::prelude::*;

verus! {

/// The main CLI structure containing the command to execute.
#[derive(Debug, Clone)]
pub struct Cli {
    /// The command to execute.
    pub command: Command,
}

/// Available commands for the Event Modeler CLI.
#[derive(Debug, Clone)]
pub enum Command {
    /// Render an event model to SVG/PDF.
    Render(RenderCommand),
    /// Watch a directory for changes and auto-render.
    Watch(WatchCommand),
    /// Validate an event model file without rendering.
    Validate(ValidateCommand),
}

/// Command to render an event model file to various output formats.
#[derive(Debug, Clone)]
pub struct RenderCommand {
    /// The input event model file (must exist with .eventmodel extension).
    pub input: TypedPath<EventModelFile, File, Exists>,
    /// Rendering options including output formats and styling.
    pub options: RenderOptions,
}

/// Command to watch a directory for event model changes.
#[derive(Debug, Clone)]
pub struct WatchCommand {
    /// The directory to watch (must exist).
    pub directory: TypedPath<AnyFile, Directory, Exists>,
    /// Optional port to serve rendered diagrams on.
    pub serve_port: Option<ServePort>,
}

/// Command to validate an event model file.
#[derive(Debug, Clone)]
pub struct ValidateCommand {
    /// The input event model file to validate (must exist with .eventmodel extension).
    pub input: TypedPath<EventModelFile, File, Exists>,
}

/// Options for rendering event models.
#[derive(Debug, Clone)]
pub struct RenderOptions {
    /// Output formats (at least one required).
    pub formats: NonEmpty<OutputFormat>,
    /// Visual style for rendering.
    pub style: RenderStyle,
    /// Whether to include documentation links in the output.
    pub include_links: IncludeLinks,
    /// Directory to write output files (parent must exist).
    pub output_dir: TypedPath<AnyFile, Directory, MaybeExists>,
}

/// Supported output formats for rendered diagrams.
#[derive(Debug, Clone, Copy, PartialEq, Eq, Structural)]
pub enum OutputFormat {
    /// Scalable Vector Graphics format.
    Svg,
    /// Portable Document Format.
    Pdf,
}

/// Visual rendering styles optimized for different environments.
#[derive(Debug, Clone, Copy, PartialEq, Eq, Structural)]
pub enum RenderStyle {
    /// Light theme optimized for GitHub's light mode.
    GithubLight,
    /// Dark theme optimized for GitHub's dark mode.
    GithubDark,
}

/// Port number for serving rendered diagrams.
#[derive(Debug, Clone, Copy)]
pub struct ServePort(Port);

impl ServePort {
    /// Wraps `port`.
    pub fn new(port: Port) -> (r: Self)
        ensures
            r.port() == port,
    {
        ServePort(port)
    }

    /// The wrapped port.
    pub closed spec fn port(self) -> Port {
        self.0
    }

    /// The wrapped port.
    pub fn into_inner(self) -> (r: Port)
        ensures
            r == self.port(),
    {
        self.0
    }
}

/// Flag indicating whether to include documentation links in rendered output.
#[derive(Debug, Clone, Copy, PartialEq, Eq, Structural)]
pub struct IncludeLinks(bool);

impl IncludeLinks {
    /// Wraps `flag`.
    pub fn new(flag: bool) -> (r: Self)
        ensures
            r.flag() == flag,
    {
        IncludeLinks(flag)
    }

    /// The wrapped flag.
    pub closed spec fn flag(self) -> bool {
        self.0
    }

    /// The wrapped flag.
    pub fn into_inner(self) -> (r: bool)
        ensures
            r == self.flag(),
    {
        self.0
    }
}

} // verus!
