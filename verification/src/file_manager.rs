//! Which command shows a file in the platform's file manager.

use vstd::prelude::*;

verus! {

/// The platforms whose file managers are known.
#[derive(Clone, Copy, Debug, PartialEq, Eq, Structural)]
pub enum Platform {
    Windows,
    MacOs,
    Linux,
}

/// A program and its arguments, ready to be spawned.
#[derive(Clone, Debug, PartialEq, Eq)]
pub struct RevealCommand {
    pub program: String,
    pub args: Vec<String>,
}

/// Why no command could be planned.
#[derive(Clone, Copy, Debug, PartialEq, Eq, Structural)]
pub enum RevealError {
    /// The file manager opens the containing directory, and the file has none.
    NoParentDirectory,
}

/// Mathematical value of a [`RevealCommand`].
pub ghost struct RevealCommandView {
    pub program: Seq<char>,
    pub args: Seq<Seq<char>>,
}

impl View for RevealCommand {
    type V = RevealCommandView;

    open spec fn view(&self) -> RevealCommandView {
        RevealCommandView { program: self.program@, args: self.args@.map_values(|a: String| a@) }
    }
}

/// The command for `path` on `platform`. Windows and macOS select the file
/// itself; Linux opens the directory `parent` that contains it, and needs one.
pub open spec fn reveal_plan(platform: Platform, path: Seq<char>, parent: Option<Seq<char>>)
    -> Result<RevealCommandView, RevealError> {
    match platform {
        Platform::Windows => Ok(
            RevealCommandView { program: "explorer"@, args: seq!["/select,"@, path] },
        ),
        Platform::MacOs => Ok(RevealCommandView { program: "open"@, args: seq!["-R"@, path] }),
        Platform::Linux => match parent {
            Some(dir) => Ok(RevealCommandView { program: "xdg-open"@, args: seq![dir] }),
            None => Err(RevealError::NoParentDirectory),
        },
    }
}

/// The view of a planned command or its error.
pub open spec fn plan_view(plan: Result<RevealCommand, RevealError>) -> Result<
    RevealCommandView,
    RevealError,
> {
    match plan {
        Ok(command) => Ok(command@),
        Err(e) => Err(e),
    }
}

/// The view of an optional directory.
pub open spec fn optional_dir(dir: Option<&str>) -> Option<Seq<char>> {
    match dir {
        Some(d) => Some(d@),
        None => None,
    }
}

/// Plans the command that shows `path` in the file manager of `platform`.
/// `parent` is the directory that contains `path`, if it has one.
pub fn plan_reveal(platform: Platform, path: &str, parent: Option<&str>) -> (plan: Result<
    RevealCommand,
    RevealError,
>)
    ensures
        plan_view(plan) == reveal_plan(platform, path@, optional_dir(parent)),
{
    match platform {
        Platform::Windows => {
            let mut args: Vec<String> = Vec::new();
            args.push("/select,".to_owned());
            args.push(path.to_owned());
            let command = RevealCommand { program: "explorer".to_owned(), args };
            proof {
                assert(command@.args =~= seq!["/select,"@, path@]);
            }
            Ok(command)
        },
        Platform::MacOs => {
            let mut args: Vec<String> = Vec::new();
            args.push("-R".to_owned());
            args.push(path.to_owned());
            let command = RevealCommand { program: "open".to_owned(), args };
            proof {
                assert(command@.args =~= seq!["-R"@, path@]);
            }
            Ok(command)
        },
        Platform::Linux => match parent {
            Some(dir) => {
                let mut args: Vec<String> = Vec::new();
                args.push(dir.to_owned());
                let command = RevealCommand { program: "xdg-open".to_owned(), args };
                proof {
                    assert(command@.args =~= seq![dir@]);
                }
                Ok(command)
            },
            None => Err(RevealError::NoParentDirectory),
        },
    }
}

} // verus!
