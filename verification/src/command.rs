//! The command value produced by parsing and by the diff engine: an ordered,
//! non-empty program-plus-arguments token list.

use vstd::prelude::*;
use vstd::slice::slice_subrange;

use crate::strutil::split_char;

verus! {

/// No token holds a nul character.
pub open spec fn nul_free(tokens: Seq<Seq<char>>) -> bool {
    forall|i: int| 0 <= i < tokens.len() ==> !tokens[i].contains('\u{0}')
}

/// What `shlex::try_join` returns for a nul-free token list: each token
/// shell-quoted as needed, the results joined by single spaces. The result
/// depends on the tokens alone.
pub uninterp spec fn shell_join_of(tokens: Seq<Seq<char>>) -> Seq<char>;

/// The token lists of an optional command.
pub open spec fn opt_command_view(r: Option<Command>) -> Option<Seq<Seq<char>>> {
    match r {
        Some(c) => Some(c@),
        None => None,
    }
}

#[derive(Debug)]
pub enum CommandError {
    MissingProgram,
    EmptyProgram,
}

/// An ordered, non-empty program-plus-arguments value. The first token is the
/// program and must be non-empty.
#[derive(Debug)]
pub struct Command {
    pub tokens: Vec<String>,
}

impl View for Command {
    type V = Seq<Seq<char>>;

    open spec fn view(&self) -> Seq<Seq<char>> {
        self.tokens@.map_values(|t: String| t@)
    }
}

impl Clone for Command {
    fn clone(&self) -> (r: Self)
        ensures
            r@ == self@,
    {
        let tokens = self.tokens.clone();
        proof {
            assert(tokens@ =~= self.tokens@);
        }
        Command { tokens }
    }
}

pub proof fn lemma_split_char_nonempty(s: Seq<char>, c: char)
    ensures
        split_char(s, c).len() >= 1,
{
    crate::strutil::lemma_find_char(s, c);
}

impl Command {
    pub open spec fn wf(&self) -> bool {
        self@.len() > 0 && self@[0].len() > 0
    }

    /// Constructs a command known to satisfy the invariant.
    pub fn new(tokens: Vec<String>) -> (r: Command)
        requires
            tokens@.len() > 0,
            tokens@[0]@.len() > 0,
        ensures
            r@ == tokens@.map_values(|t: String| t@),
            r.wf(),
    {
        Command { tokens }
    }

    pub fn from_vec(program_and_args: Vec<String>) -> (r: Result<Command, CommandError>)
        ensures
            (r is Ok) == (program_and_args@.len() > 0 && program_and_args@[0]@.len() > 0),
            r matches Ok(c) ==> c@ == program_and_args@.map_values(|t: String| t@) && c.wf(),
            r matches Err(e) ==> (if program_and_args@.len() == 0 {
                e is MissingProgram
            } else {
                e is EmptyProgram
            }),
    {
        if program_and_args.len() == 0 {
            Err(CommandError::MissingProgram)
        } else if program_and_args[0].as_str().is_empty() {
            Err(CommandError::EmptyProgram)
        } else {
            Ok(Command { tokens: program_and_args })
        }
    }

    pub fn from_str(program_and_args: &str) -> (r: Result<Command, CommandError>)
        ensures
            (r is Ok) == (split_char(program_and_args@, ' ')[0].len() > 0),
            r matches Ok(c) ==> c@ == split_char(program_and_args@, ' ') && c.wf(),
            r matches Err(e) ==> e is EmptyProgram,
    {
        proof {
            lemma_split_char_nonempty(program_and_args@, ' ');
        }
        let tokens = crate::strutil::split_str(program_and_args, ' ');
        Command::from_vec(tokens)
    }

    pub fn into_vec(self) -> (r: Vec<String>)
        ensures
            r@.map_values(|t: String| t@) == self@,
    {
        self.tokens
    }

    pub fn split_program_and_args<'a>(&'a self) -> (r: (&'a str, &'a [String]))
        requires
            self.wf(),
        ensures
            r.0@ == self@[0],
            r.1@.map_values(|t: String| t@) == self@.skip(1),
    {
        let program = self.tokens[0].as_str();
        let args = slice_subrange(self.tokens.as_slice(), 1, self.tokens.len());
        proof {
            assert(args@.map_values(|t: String| t@) =~= self@.skip(1));
        }
        (program, args)
    }

    /// A derived command with the given arguments appended; the original is
    /// left as it is.
    pub fn concat_args(&self, args: Vec<String>) -> (r: Command)
        ensures
            r@ == self@ + args@.map_values(|t: String| t@),
    {
        let mut tokens = self.tokens.clone();
        proof {
            assert(tokens@ =~= self.tokens@);
        }
        let mut extra = args;
        tokens.append(&mut extra);
        let r = Command { tokens };
        proof {
            assert(r@ =~= self@ + args@.map_values(|t: String| t@));
        }
        r
    }

    /// Token-by-token equality of the two commands.
    pub fn same_tokens(&self, other: &Command) -> (r: bool)
        ensures
            r == (self@ == other@),
    {
        let n = self.tokens.len();
        if n != other.tokens.len() {
            assert(self@.len() != other@.len());
            return false;
        }
        let mut i: usize = 0;
        while i < n
            invariant
                0 <= i <= n,
                n == self.tokens@.len(),
                n == other.tokens@.len(),
                forall|j: int| 0 <= j < i ==> self.tokens@[j]@ == other.tokens@[j]@,
            decreases n - i,
        {
            if !(self.tokens[i] == other.tokens[i]) {
                assert(self@[i as int] != other@[i as int]);
                return false;
            }
            i = i + 1;
        }
        proof {
            assert(self@ =~= other@);
        }
        true
    }

    /// Renders the command as one shell-quoted string, or nothing when a
    /// token holds a nul character, which no shell string can carry.
    ///
    /// Relies on shlex::try_join: it fails exactly when some word holds a nul
    /// byte, and otherwise its result is a function of the words alone.
    #[verifier::external_body]
    pub fn display(&self) -> (r: Option<String>)
        ensures
            (r is Some) <==> nul_free(self@),
            r matches Some(s) ==> s@ == shell_join_of(self@),
    {
        match shlex::try_join(self.tokens.iter().map(|t| t.as_str())) {
            Ok(s) => Some(s),
            Err(_) => None,
        }
    }
}

} // verus!
