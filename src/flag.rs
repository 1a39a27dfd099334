use vstd::prelude::*;

verus! {

/// One switch of a command: its short and long names, a description, whether
/// it takes the following token as its value, and whether it pre-empts the
/// command's own handler.
pub struct Flag {
    pub short: char,
    pub long: String,
    pub about: String,
    pub consumer: bool,
    pub breakpoint: bool,
}

/// The help line of a flag: `-{short}, --{long}\t{about}`.
pub open spec fn flag_help(f: Flag) -> Seq<char> {
    seq!['-', f.short, ',', ' ', '-', '-'] + f.long@ + seq!['\t'] + f.about@
}

/// Relies on `String::push`: the character is appended at the end.
#[verifier::external_body]
pub(crate) fn push_char(s: &mut String, c: char)
    ensures
        final(s)@ == old(s)@.push(c),
{
    s.push(c)
}

impl Flag {
    pub fn help(&self) -> (r: String)
        ensures
            r@ == flag_help(*self),
    {
        let mut help = String::new();
        push_char(&mut help, '-');
        push_char(&mut help, self.short);
        push_char(&mut help, ',');
        push_char(&mut help, ' ');
        push_char(&mut help, '-');
        push_char(&mut help, '-');
        help.append(self.long.as_str());
        push_char(&mut help, '\t');
        help.append(self.about.as_str());
        proof {
            assert(help@ =~= flag_help(*self));
        }
        help
    }
}

} // verus!
