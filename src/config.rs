use vstd::prelude::*;

verus! {

/// Settings fixed at startup and read by every request.
#[derive(Debug)]
pub struct Config {
    /// The root directory whose files are served.
    pub dir: String,
    /// The URL prefix under which the root is served.
    pub basepath: String,
    /// The address to listen on.
    pub host: String,
    /// The port to listen on.
    pub port: u16,
    /// Whether to log verbosely.
    pub verbose: bool,
    /// The format of the preview images, which is also their extension.
    pub format: String,
    /// Shown to clients as a flag; nothing here writes to the tree.
    pub read_only: bool,
    /// When set, no entry gets a preview.
    pub no_thumbs: bool,
}

} // verus!
