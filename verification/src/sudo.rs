//! The privilege-elevation builder's bookkeeping.
//!
//! Elevation differs per host: one spawns the `sudo` binary with the password
//! written to its standard input, the other calls a logon-and-create API with
//! a single quoted command line. Both need the same record — program,
//! password, argument list — and this module builds, exactly and verified,
//! what each host's spawn call consumes: the argument vector, the quoted
//! command line, and the newline-terminated password line. The spawn calls
//! themselves, and the pipe write of the password, live in the shell.

use vstd::prelude::*;

verus! {

/// One argument as it appears on the quoted command line: a space, then the
/// argument between double quotes.
pub open spec fn quoted(arg: Seq<char>) -> Seq<char> {
    " \""@ + arg + "\""@
}

/// A whole argument list in command-line form.
pub open spec fn quoted_args(args: Seq<Seq<char>>) -> Seq<char>
    decreases args.len(),
{
    if args.len() == 0 {
        Seq::empty()
    } else {
        quoted_args(args.drop_last()) + quoted(args.last())
    }
}

/// A command to run with elevated privileges. Distinct from the plain
/// builder because the password occupies the child's standard input, which is
/// therefore not otherwise available.
pub struct Sudo {
    program: String,
    password: String,
    args: Vec<String>,
    command_line: String,
}

impl Sudo {
    /// The program to elevate.
    pub closed spec fn spec_program(&self) -> Seq<char> {
        self.program@
    }

    /// The password handed to the elevation mechanism.
    pub closed spec fn spec_password(&self) -> Seq<char> {
        self.password@
    }

    /// The arguments added so far.
    pub closed spec fn arg_views(&self) -> Seq<Seq<char>> {
        self.args@.map_values(|s: String| s@)
    }

    /// The quoted command line built so far: the program, then each argument
    /// quoted.
    pub closed spec fn spec_command_line(&self) -> Seq<char> {
        self.command_line@
    }

    /// The command line is always the program followed by the quoted
    /// arguments.
    pub open spec fn wf(&self) -> bool {
        self.spec_command_line() == self.spec_program() + quoted_args(self.arg_views())
    }

    /// A new elevated command for `program`, with no arguments yet.
    pub fn new(program: String, password: String) -> (r: Sudo)
        ensures
            r.wf(),
            r.spec_program() == program@,
            r.spec_password() == password@,
            r.arg_views() == Seq::<Seq<char>>::empty(),
    {
        let command_line = program.clone();
        let r = Sudo { program, password, args: Vec::new(), command_line };
        proof {
            assert(r.arg_views() =~= Seq::<Seq<char>>::empty());
            assert(r.spec_command_line() =~= r.spec_program() + quoted_args(r.arg_views()));
        }
        r
    }

    /// Append one argument; on the command line it is quoted.
    pub fn arg(&mut self, arg: String)
        requires
            old(self).wf(),
        ensures
            final(self).wf(),
            final(self).spec_program() == old(self).spec_program(),
            final(self).spec_password() == old(self).spec_password(),
            final(self).arg_views() == old(self).arg_views().push(arg@),
            final(self).spec_command_line() == old(self).spec_command_line() + quoted(arg@),
    {
        self.command_line.append(" \"");
        self.command_line.append(arg.as_str());
        self.command_line.append("\"");
        let ghost a = arg@;
        self.args.push(arg);
        proof {
            assert(self.arg_views() =~= old(self).arg_views().push(a));
            assert(self.arg_views().drop_last() =~= old(self).arg_views());
            assert(self.spec_command_line() =~= old(self).spec_command_line() + quoted(a));
            assert(self.spec_command_line() =~= self.spec_program() + quoted_args(
                self.arg_views(),
            ));
        }
    }

    /// Append every argument in order.
    pub fn args(&mut self, args: Vec<String>)
        requires
            old(self).wf(),
        ensures
            final(self).wf(),
            final(self).spec_program() == old(self).spec_program(),
            final(self).spec_password() == old(self).spec_password(),
            final(self).arg_views() == old(self).arg_views() + args@.map_values(|s: String| s@),
    {
        let n = args.len();
        let mut i: usize = 0;
        while i < n
            invariant
                n == args@.len(),
                i <= n,
                self.wf(),
                self.spec_program() == old(self).spec_program(),
                self.spec_password() == old(self).spec_password(),
                self.arg_views() == old(self).arg_views() + args@.take(i as int).map_values(
                    |s: String| s@,
                ),
            decreases n - i,
        {
            let a = args[i].clone();
            let ghost before = self.arg_views();
            self.arg(a);
            proof {
                assert(args@.take(i + 1).map_values(|s: String| s@) =~= args@.take(
                    i as int,
                ).map_values(|s: String| s@).push(args@[i as int]@));
                assert(self.arg_views() =~= old(self).arg_views() + args@.take(i + 1).map_values(
                    |s: String| s@,
                ));
            }
            i = i + 1;
        }
        proof {
            assert(args@.take(n as int) =~= args@);
        }
    }

    /// The argument vector for a host that spawns the `sudo` binary:
    /// `-S` (read the password from standard input), `-k` (always ask for
    /// it), the program, then the arguments.
    pub fn posix_argv(&self) -> (r: Vec<String>)
        ensures
            r@.len() == 3 + self.arg_views().len(),
            r@[0]@ == "-S"@,
            r@[1]@ == "-k"@,
            r@[2]@ == self.spec_program(),
            forall|i: int| 0 <= i < self.arg_views().len() ==> r@[3 + i]@ == self.arg_views()[i],
    {
        let mut r: Vec<String> = Vec::new();
        r.push(String::from_str("-S"));
        r.push(String::from_str("-k"));
        r.push(self.program.clone());
        let n = self.args.len();
        let mut i: usize = 0;
        while i < n
            invariant
                n == self.args@.len(),
                i <= n,
                r@.len() == 3 + i,
                r@[0]@ == "-S"@,
                r@[1]@ == "-k"@,
                r@[2]@ == self.spec_program(),
                forall|j: int| 0 <= j < i ==> r@[3 + j]@ == self.arg_views()[j],
            decreases n - i,
        {
            r.push(self.args[i].clone());
            i = i + 1;
        }
        r
    }

    /// The quoted command line for a host whose create-process call takes the
    /// whole line at once.
    pub fn command_line(&self) -> (r: &str)
        ensures
            r@ == self.spec_command_line(),
    {
        self.command_line.as_str()
    }

    /// The program name, for the same host's create-process call.
    pub fn program(&self) -> (r: &str)
        ensures
            r@ == self.spec_program(),
    {
        self.program.as_str()
    }

    /// The line written to the child's standard input: the password, newline
    /// terminated so the reading end sees it complete.
    pub fn password_line(&self) -> (r: String)
        ensures
            r@ == self.spec_password() + "\n"@,
    {
        let mut r = self.password.clone();
        r.append("\n");
        r
    }
}

} // verus!
