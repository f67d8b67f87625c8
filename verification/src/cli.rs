//! The command line of the site generator, as plain values.

use vstd::prelude::*;

use crate::path::SitePath;

verus! {

/// What the user asked for: the three site directories and a subcommand.
pub struct Cli {
    /// Output directory path (default `public`).
    pub output_dir: SitePath,
    /// Content directory path (default `content`).
    pub content_dir: SitePath,
    /// Assets directory path (default `assets`).
    pub assets_dir: SitePath,
    /// The subcommand, if one was given.
    pub command: Option<Commands>,
}

/// The subcommands.
pub enum Commands {
    /// Serve the site. Rebuild and reload on change automatically.
    Serve {
        /// Interface to bind on (default `127.0.0.1`).
        interface: String,
        /// The port to listen on (default 8282).
        port: u16,
        /// Whether to watch the sources (default true).
        watch: bool,
    },
    /// Deletes the output directory if there is one and rebuilds the site.
    Built {
        /// Whether to minify the generated pages.
        minify: bool,
    },
}

impl Cli {
    /// Whether the generated pages are to be minified: only `built --minify` asks for it.
    pub open spec fn spec_minify(&self) -> bool {
        self.command matches Some(Commands::Built { minify: true })
    }

    /// Whether the sources are to be watched: every command but a `serve` with watching off.
    pub open spec fn spec_watch(&self) -> bool {
        !(self.command matches Some(Commands::Serve { watch: false, .. }))
    }

    /// Whether the generated pages are to be minified.
    pub fn minify_requested(&self) -> (b: bool)
        ensures
            b == self.spec_minify(),
    {
        match &self.command {
            Some(Commands::Built { minify }) => *minify,
            _ => false,
        }
    }

    /// Whether the sources are to be watched for changes.
    pub fn watch_requested(&self) -> (b: bool)
        ensures
            b == self.spec_watch(),
    {
        match &self.command {
            Some(Commands::Serve { watch, .. }) => *watch,
            _ => true,
        }
    }

    /// The interface and port to serve on; none unless the command is `serve`.
    pub fn serve_endpoint(&self) -> (r: Option<(String, u16)>)
        ensures
            match self.command {
                Some(Commands::Serve { interface, port, .. }) => r matches Some(
                    (i, p),
                ) && i@ == interface@ && p == port,
                _ => r is None,
            },
    {
        match &self.command {
            Some(Commands::Serve { interface, port, .. }) => Some((interface.clone(), *port)),
            _ => None,
        }
    }
}

/// What the switches mean: `serve` watches exactly when its watch flag is
/// set, every other command (or none) watches; only `built` with its minify
/// flag set minifies.
pub proof fn lemma_cli_switches(cli: Cli)
    ensures
        match cli.command {
            Some(Commands::Serve { watch, .. }) => cli.spec_watch() == watch && !cli.spec_minify(),
            Some(Commands::Built { minify }) => cli.spec_watch() && cli.spec_minify() == minify,
            None => cli.spec_watch() && !cli.spec_minify(),
        },
{
}

} // verus!
