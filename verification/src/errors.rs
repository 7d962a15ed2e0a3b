//! Parse errors: a structured kind per grammar violation, wrapped with the
//! 1-based line number and the offending line, and rendered to the same
//! messages the parsers' callers report.

use vstd::prelude::*;

use crate::command::{nul_free, shell_join_of, Command};
use crate::common::{quote, quoted_of};
use crate::strutil::{lemma_find_char, spec_dec, usize_to_string};

verus! {

#[derive(Debug)]
pub enum ParseErrorKind {
    CargoMissingSuffix,
    EmptyCrateName,
    DuplicateCrate { crate_name: String, previous_command: Command },
    PixiMissingSuffix,
    EmptyRecipeAndVersion,
    MissingEquals,
    EmptyRecipe,
    DuplicateRecipe { recipe: String, previous: String },
    GitMissingSuffix,
    GitMissingValue { option_and_value: String },
    EmptyOption,
    EmptyValue,
    MissingEndingApostrophe { value: String },
    DuplicateOption { option_name: String, previous_value: String },
}

pub enum ParseErrorKindV {
    CargoMissingSuffix,
    EmptyCrateName,
    DuplicateCrate { crate_name: Seq<char>, previous_command: Seq<Seq<char>> },
    PixiMissingSuffix,
    EmptyRecipeAndVersion,
    MissingEquals,
    EmptyRecipe,
    DuplicateRecipe { recipe: Seq<char>, previous: Seq<char> },
    GitMissingSuffix,
    GitMissingValue { option_and_value: Seq<char> },
    EmptyOption,
    EmptyValue,
    MissingEndingApostrophe { value: Seq<char> },
    DuplicateOption { option_name: Seq<char>, previous_value: Seq<char> },
}

impl View for ParseErrorKind {
    type V = ParseErrorKindV;

    open spec fn view(&self) -> ParseErrorKindV {
        match self {
            ParseErrorKind::CargoMissingSuffix => ParseErrorKindV::CargoMissingSuffix,
            ParseErrorKind::EmptyCrateName => ParseErrorKindV::EmptyCrateName,
            ParseErrorKind::DuplicateCrate { crate_name, previous_command } => {
                ParseErrorKindV::DuplicateCrate {
                    crate_name: crate_name@,
                    previous_command: previous_command@,
                }
            },
            ParseErrorKind::PixiMissingSuffix => ParseErrorKindV::PixiMissingSuffix,
            ParseErrorKind::EmptyRecipeAndVersion => ParseErrorKindV::EmptyRecipeAndVersion,
            ParseErrorKind::MissingEquals => ParseErrorKindV::MissingEquals,
            ParseErrorKind::EmptyRecipe => ParseErrorKindV::EmptyRecipe,
            ParseErrorKind::DuplicateRecipe { recipe, previous } => {
                ParseErrorKindV::DuplicateRecipe { recipe: recipe@, previous: previous@ }
            },
            ParseErrorKind::GitMissingSuffix => ParseErrorKindV::GitMissingSuffix,
            ParseErrorKind::GitMissingValue { option_and_value } => {
                ParseErrorKindV::GitMissingValue { option_and_value: option_and_value@ }
            },
            ParseErrorKind::EmptyOption => ParseErrorKindV::EmptyOption,
            ParseErrorKind::EmptyValue => ParseErrorKindV::EmptyValue,
            ParseErrorKind::MissingEndingApostrophe { value } => {
                ParseErrorKindV::MissingEndingApostrophe { value: value@ }
            },
            ParseErrorKind::DuplicateOption { option_name, previous_value } => {
                ParseErrorKindV::DuplicateOption {
                    option_name: option_name@,
                    previous_value: previous_value@,
                }
            },
        }
    }
}

/// The message can be rendered: the one kind that embeds a shell-joined
/// command has no nul character in it.
pub open spec fn kind_renderable(k: ParseErrorKindV) -> bool {
    match k {
        ParseErrorKindV::DuplicateCrate { previous_command, .. } => nul_free(previous_command),
        _ => true,
    }
}

pub open spec fn spec_kind_message(k: ParseErrorKindV) -> Seq<char> {
    match k {
        ParseErrorKindV::CargoMissingSuffix => {
            "line with \"cargo install \" but which does not end with "@ + quoted_of("; \\"@)
        },
        ParseErrorKindV::EmptyCrateName => "empty crate name"@,
        ParseErrorKindV::DuplicateCrate { crate_name, previous_command } => {
            quoted_of(crate_name) + " crate already installed in a previous line: the command was ["@
                + shell_join_of(previous_command) + "]"@
        },
        ParseErrorKindV::PixiMissingSuffix => {
            "line with \"pixi global install \" but which does not end with "@ + quoted_of("; \\"@)
        },
        ParseErrorKindV::EmptyRecipeAndVersion => "neither recipe nor version"@,
        ParseErrorKindV::MissingEquals => "'=' is missing"@,
        ParseErrorKindV::EmptyRecipe => "empty recipe"@,
        ParseErrorKindV::DuplicateRecipe { recipe, previous } => {
            quoted_of(recipe) + " recipe already installed in a previous line: it was "@ + previous
        },
        ParseErrorKindV::GitMissingSuffix => {
            "line with \"git config set --global \" but which does not end with "@ + quoted_of(
                "; \\"@,
            )
        },
        ParseErrorKindV::GitMissingValue { option_and_value } => {
            quoted_of(option_and_value) + " git global option without value"@
        },
        ParseErrorKindV::EmptyOption => "empty option"@,
        ParseErrorKindV::EmptyValue => "empty value"@,
        ParseErrorKindV::MissingEndingApostrophe { value } => {
            "missing ending apostrophe in "@ + quoted_of(value)
        },
        ParseErrorKindV::DuplicateOption { option_name, previous_value } => {
            quoted_of(option_name) + " git global option already set in a previous line: the value was "@
                + quoted_of(previous_value)
        },
    }
}

impl ParseErrorKind {
    pub fn message(&self) -> (r: String)
        requires
            kind_renderable(self@),
        ensures
            r@ == spec_kind_message(self@),
    {
        match self {
            ParseErrorKind::CargoMissingSuffix => {
                let mut m = String::from_str("line with \"cargo install \" but which does not end with ");
                m.append(quote("; \\").as_str());
                m
            },
            ParseErrorKind::EmptyCrateName => String::from_str("empty crate name"),
            ParseErrorKind::DuplicateCrate { crate_name, previous_command } => {
                let mut m = quote(crate_name.as_str());
                m.append(" crate already installed in a previous line: the command was [");
                match previous_command.display() {
                    Some(joined) => {
                        m.append(joined.as_str());
                        m.append("]");
                        m
                    },
                    None => vstd::pervasive::unreached(),
                }
            },
            ParseErrorKind::PixiMissingSuffix => {
                let mut m = String::from_str("line with \"pixi global install \" but which does not end with ");
                m.append(quote("; \\").as_str());
                m
            },
            ParseErrorKind::EmptyRecipeAndVersion => String::from_str("neither recipe nor version"),
            ParseErrorKind::MissingEquals => String::from_str("'=' is missing"),
            ParseErrorKind::EmptyRecipe => String::from_str("empty recipe"),
            ParseErrorKind::DuplicateRecipe { recipe, previous } => {
                let mut m = quote(recipe.as_str());
                m.append(" recipe already installed in a previous line: it was ");
                m.append(previous.as_str());
                m
            },
            ParseErrorKind::GitMissingSuffix => {
                let mut m = String::from_str("line with \"git config set --global \" but which does not end with ");
                m.append(quote("; \\").as_str());
                m
            },
            ParseErrorKind::GitMissingValue { option_and_value } => {
                let mut m = quote(option_and_value.as_str());
                m.append(" git global option without value");
                m
            },
            ParseErrorKind::EmptyOption => String::from_str("empty option"),
            ParseErrorKind::EmptyValue => String::from_str("empty value"),
            ParseErrorKind::MissingEndingApostrophe { value } => {
                let mut m = String::from_str("missing ending apostrophe in ");
                m.append(quote(value.as_str()).as_str());
                m
            },
            ParseErrorKind::DuplicateOption { option_name, previous_value } => {
                let mut m = quote(option_name.as_str());
                m.append(" git global option already set in a previous line: the value was ");
                m.append(quote(previous_value.as_str()).as_str());
                m
            },
        }
    }
}

/// A grammar error wrapped with the 1-based line number and the verbatim line.
#[derive(Debug)]
pub struct ParseError {
    pub line_number: usize,
    pub line: String,
    pub kind: ParseErrorKind,
}

pub struct ParseErrorV {
    pub line_number: int,
    pub line: Seq<char>,
    pub kind: ParseErrorKindV,
}

impl View for ParseError {
    type V = ParseErrorV;

    open spec fn view(&self) -> ParseErrorV {
        ParseErrorV { line_number: self.line_number as int, line: self.line@, kind: self.kind@ }
    }
}

pub open spec fn spec_error_message(e: ParseErrorV) -> Seq<char> {
    "failed to parse line "@ + spec_dec(e.line_number) + ": "@ + quoted_of(e.line) + ": "@
        + spec_kind_message(e.kind)
}

impl ParseError {
    /// Whether `message` can render this error; false only when the error
    /// embeds a command that holds a nul character.
    pub fn renderable(&self) -> (r: bool)
        ensures
            r == kind_renderable(self@.kind),
    {
        match &self.kind {
            ParseErrorKind::DuplicateCrate { previous_command, .. } => {
                proof {
                    assert(self@.kind is DuplicateCrate);
                    assert(self@.kind->DuplicateCrate_previous_command == previous_command@);
                }
                let n = previous_command.tokens.len();
                let mut i: usize = 0;
                while i < n
                    invariant
                        0 <= i <= n,
                        n == previous_command.tokens@.len(),
                        self@.kind is DuplicateCrate,
                        self@.kind->DuplicateCrate_previous_command == previous_command@,
                        forall|j: int|
                            0 <= j < i ==> !previous_command.tokens@[j]@.contains('\u{0}'),
                    decreases n - i,
                {
                    match crate::strutil::find_char_str(previous_command.tokens[i].as_str(), '\u{0}') {
                        Some(_) => {
                            proof {
                                lemma_find_char(previous_command.tokens@[i as int]@, '\u{0}');
                                assert(previous_command@.len() == previous_command.tokens@.len());
                                assert(previous_command@[i as int]
                                    == previous_command.tokens@[i as int]@);
                                assert(previous_command@[i as int].contains('\u{0}'));
                                assert(!nul_free(previous_command@));
                            }
                            return false;
                        },
                        None => {
                            proof {
                                lemma_find_char(previous_command.tokens@[i as int]@, '\u{0}');
                            }
                        },
                    }
                    i = i + 1;
                }
                proof {
                    assert forall|j: int| 0 <= j < previous_command@.len() implies !previous_command@[j].contains(
                        '\u{0}',
                    ) by {
                        assert(previous_command@[j] == previous_command.tokens@[j]@);
                    }
                }
                true
            },
            _ => true,
        }
    }

    /// The full message: `failed to parse line <n>: <quoted line>: <cause>`.
    pub fn message(&self) -> (r: String)
        requires
            kind_renderable(self@.kind),
        ensures
            r@ == spec_error_message(self@),
    {
        let mut m = String::from_str("failed to parse line ");
        m.append(usize_to_string(self.line_number).as_str());
        m.append(": ");
        m.append(quote(self.line.as_str()).as_str());
        m.append(": ");
        m.append(self.kind.message().as_str());
        m
    }
}

} // verus!
