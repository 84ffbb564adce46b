//! What the user asks for on the command line.
use vstd::prelude::*;
use crate::cf::ContestType;

verus! {

/// The whole command line.
#[derive(Clone, Debug, PartialEq, Eq)]
pub struct Cli {
    pub command: Commands,
}

/// The subcommands.
#[derive(Clone, Debug, PartialEq, Eq)]
pub enum Commands {
    /// Login
    Login,
    /// Configure templates
    Template(TemplateCommandArgs),
    /// Fetch samples from contest
    Parse(ContestArgs),
    /// Generate file from template
    Gen(TemplateArgs),
    /// Submit code for problem
    Submit,
    /// Test code locally
    Test,
    /// Open the Github page of cf-tool
    Source,
}

/// `template` and its subcommand.
#[derive(Clone, Debug, PartialEq, Eq)]
pub struct TemplateCommandArgs {
    pub command: TemplateCommands,
}

/// The `template` subcommands.
#[derive(Clone, Debug, PartialEq, Eq)]
pub enum TemplateCommands {
    /// Add a template
    Add,
    /// Set a default template (the `set` subcommand)
    SetDefault(TemplateArgs),
    /// Delete a template
    Delete(TemplateArgs),
}

/// `config` and its subcommand.
#[derive(Clone, Debug, PartialEq, Eq)]
pub struct ConfigArgs {
    pub command: ConfigCommands,
}

/// The `config` subcommands.
#[derive(Clone, Debug, PartialEq, Eq)]
pub enum ConfigCommands {
    /// Login
    Login,
    /// Configure templates
    Template(TemplateConfigArgs),
}

/// `config template` and its subcommand.
#[derive(Clone, Debug, PartialEq, Eq)]
pub struct TemplateConfigArgs {
    pub cmd: TemplateConfigCommands,
}

/// The `config template` subcommands.
#[derive(Clone, Debug, PartialEq, Eq)]
pub enum TemplateConfigCommands {
    /// Add a template
    Add,
    /// Set a default template
    SetDefault(TemplateArgs),
    /// Delete a template
    Delete(TemplateArgs),
}

/// The arguments that name a contest: `--contest` (the default) or `--gym`,
/// and the contest's identifier.
#[derive(Clone, Debug, PartialEq, Eq)]
pub struct ContestArgs {
    pub contest: bool,
    pub gym: bool,
    pub contest_id: String,
}

/// The contest type that the flags ask for: a gym if `--gym` is given, a
/// contest otherwise.
pub open spec fn flags_contest_type(contest: bool, gym: bool) -> ContestType {
    if gym {
        ContestType::Gym
    } else {
        ContestType::Contest
    }
}

impl ContestArgs {
    /// The contest type the flags ask for.
    pub fn contest_type(&self) -> (r: ContestType)
        ensures
            r == flags_contest_type(self.contest, self.gym),
    {
        if self.gym {
            return ContestType::Gym;
        } else if self.contest {
            return ContestType::Contest;
        }
        ContestType::Contest
    }

    /// The contest type the flags ask for.
    pub fn get_contest_type(&self) -> (r: ContestType)
        ensures
            r == flags_contest_type(self.contest, self.gym),
    {
        self.contest_type()
    }
}

/// The arguments that name a template by its alias, if given.
#[derive(Clone, Debug, PartialEq, Eq)]
pub struct TemplateArgs {
    pub alias: Option<String>,
}

} // verus!
