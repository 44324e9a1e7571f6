//! The settings of the tool.

use vstd::prelude::*;

verus! {

/// The settings of a build.
#[derive(Debug, Clone)]
pub struct Build {
    /// Where the output is written.
    pub output: String,
    /// Whether comments are left out of the output.
    pub minify: bool,
}

/// The settings of the tool.
#[derive(Debug, Clone)]
pub struct Options {
    /// Where the source file is.
    pub src: String,
    /// Whether values are hidden in what is printed.
    pub cloak: bool,
    pub build: Build,
}

pub struct BuildView {
    pub output: Seq<char>,
    pub minify: bool,
}

pub struct OptionsView {
    pub src: Seq<char>,
    pub cloak: bool,
    pub build: BuildView,
}

impl View for Build {
    type V = BuildView;

    open spec fn view(&self) -> BuildView {
        BuildView { output: self.output@, minify: self.minify }
    }
}

impl View for Options {
    type V = OptionsView;

    open spec fn view(&self) -> OptionsView {
        OptionsView { src: self.src@, cloak: self.cloak, build: self.build@ }
    }
}

/// The settings that hold where nothing is set.
pub open spec fn defaults() -> OptionsView {
    OptionsView {
        src: ".vnv"@,
        cloak: false,
        build: BuildView { output: ".env"@, minify: false },
    }
}

/// The view of a text that may be absent.
pub open spec fn text_view(text: Option<String>) -> Option<Seq<char>> {
    match text {
        Some(t) => Some(t@),
        None => None,
    }
}

/// The settings with the given ones set and the default for each of the
/// others.
pub open spec fn settled(
    src: Option<Seq<char>>,
    cloak: Option<bool>,
    output: Option<Seq<char>>,
    minify: Option<bool>,
) -> OptionsView {
    OptionsView {
        src: match src {
            Some(s) => s,
            None => defaults().src,
        },
        cloak: match cloak {
            Some(c) => c,
            None => defaults().cloak,
        },
        build: BuildView {
            output: match output {
                Some(o) => o,
                None => defaults().build.output,
            },
            minify: match minify {
                Some(m) => m,
                None => defaults().build.minify,
            },
        },
    }
}

impl Options {
    /// Returns the default values for config.
    pub fn new() -> (r: Self)
        ensures
            r@ == defaults(),
    {
        Options {
            src: String::from_str(".vnv"),
            cloak: false,
            build: Build { output: String::from_str(".env"), minify: false },
        }
    }

    /// The settings with those that a settings file gives, and the default
    /// for each that it does not give.
    pub fn from_parts(
        src: Option<String>,
        cloak: Option<bool>,
        output: Option<String>,
        minify: Option<bool>,
    ) -> (r: Self)
        ensures
            r@ == settled(text_view(src), cloak, text_view(output), minify),
    {
        let defaults = Options::new();
        Options {
            src: match src {
                Some(s) => s,
                None => defaults.src,
            },
            cloak: match cloak {
                Some(c) => c,
                None => defaults.cloak,
            },
            build: Build {
                output: match output {
                    Some(o) => o,
                    None => defaults.build.output,
                },
                minify: match minify {
                    Some(m) => m,
                    None => defaults.build.minify,
                },
            },
        }
    }
}

} // verus!
