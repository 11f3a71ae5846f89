//! Commands to run, and what came of running them.

use crate::text;
use vstd::prelude::*;
use vstd::utf8;

verus! {

/// The model of a command.
pub struct InvocationView {
    pub program: Seq<char>,
    pub args: Seq<Seq<char>>,
    pub env: Seq<(Seq<char>, Seq<char>)>,
    pub unset: Seq<Seq<char>>,
    pub dir: Option<Seq<char>>,
}

/// A command to run: each argument goes to the program as it stands, with no shell in between.
#[derive(Debug)]
pub struct Invocation {
    pub program: String,
    pub args: Vec<String>,
    /// Environment variables to set.
    pub env: Vec<(String, String)>,
    /// Environment variables to take away.
    pub unset: Vec<String>,
    /// The directory to run in, if not the current one.
    pub dir: Option<String>,
}

/// The characters of pairs of strings.
pub open spec fn pairs(list: Seq<(String, String)>) -> Seq<(Seq<char>, Seq<char>)> {
    list.map_values(|p: (String, String)| (p.0@, p.1@))
}

impl View for Invocation {
    type V = InvocationView;

    open spec fn view(&self) -> InvocationView {
        InvocationView {
            program: self.program@,
            args: text::texts(self.args@),
            env: pairs(self.env@),
            unset: text::texts(self.unset@),
            dir: text::maybe(self.dir),
        }
    }
}

/// `program` with arguments, in the current directory and environment.
pub open spec fn call(program: Seq<char>, args: Seq<Seq<char>>) -> InvocationView {
    InvocationView { program, args, env: Seq::empty(), unset: Seq::empty(), dir: None }
}

impl Invocation {
    /// `program`, without arguments.
    pub fn new(program: &str) -> (res: Invocation)
        ensures
            res@ == call(program@, Seq::empty()),
    {
        let res = Invocation {
            program: program.to_owned(),
            args: Vec::new(),
            env: Vec::new(),
            unset: Vec::new(),
            dir: None,
        };
        assert(res@.args =~= Seq::empty());
        assert(res@.env =~= Seq::empty());
        assert(res@.unset =~= Seq::empty());
        res
    }

    /// Adds an argument.
    pub fn arg(&mut self, arg: &str)
        ensures
            final(self)@ == (InvocationView { args: old(self)@.args.push(arg@), ..old(self)@ }),
    {
        self.args.push(arg.to_owned());
        assert(self@.args =~= old(self)@.args.push(arg@));
    }

    /// Sets an environment variable.
    pub fn env(&mut self, key: &str, value: &str)
        ensures
            final(self)@ == (InvocationView {
                env: old(self)@.env.push((key@, value@)),
                ..old(self)@
            }),
    {
        self.env.push((key.to_owned(), value.to_owned()));
        assert(self@.env =~= old(self)@.env.push((key@, value@)));
    }

    /// Takes an environment variable away.
    pub fn env_remove(&mut self, key: &str)
        ensures
            final(self)@ == (InvocationView { unset: old(self)@.unset.push(key@), ..old(self)@ }),
    {
        self.unset.push(key.to_owned());
        assert(self@.unset =~= old(self)@.unset.push(key@));
    }

    /// Sets the directory to run in.
    pub fn current_dir(&mut self, dir: &str)
        ensures
            final(self)@ == (InvocationView { dir: Some(dir@), ..old(self)@ }),
    {
        self.dir = Some(dir.to_owned());
    }
}

/// What a command that ran left behind.
#[derive(Debug)]
pub struct CommandOutput {
    /// Whether it exited with success.
    pub success: bool,
    pub stdout: Vec<u8>,
    pub stderr: Vec<u8>,
}

/// The text that a row of bytes stands for, where bytes that are no UTF-8 are replaced.
pub uninterp spec fn lossy_text(bytes: Seq<u8>) -> Seq<char>;

/// `String::from_utf8_lossy`: valid UTF-8 is decoded as it stands; anything else has U+FFFD in
/// place of what is invalid.
#[verifier::external_body]
pub(crate) fn decode_lossy(bytes: &[u8]) -> (res: String)
    ensures
        res@ == lossy_text(bytes@),
        utf8::valid_utf8(bytes@) ==> res@ == utf8::decode_utf8(bytes@),
{
    String::from_utf8_lossy(bytes).into_owned()
}

} // verus!
