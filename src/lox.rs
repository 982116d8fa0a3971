use vstd::prelude::*;

verus! {

/// One diagnostic: the source line, where on that line, and what went wrong.
pub struct Error {
    pub line: usize,
    pub place: String,
    pub message: String,
}

impl Error {
    pub fn new(line: usize, place: String, message: String) -> (r: Error)
        ensures
            r.line == line,
            r.place == place,
            r.message == message,
    {
        Error { line, place, message }
    }
}

/// The diagnostics of one run, kept in the order in which they were found.
pub struct Lox {
    pub had_error: bool,
    pub errors: Vec<Error>,
}

impl Lox {
    /// `had_error` tells whether anything was recorded.
    pub open spec fn wf(&self) -> bool {
        self.had_error == (self.errors@.len() > 0)
    }

    pub fn new() -> (r: Lox)
        ensures
            r.wf(),
            !r.had_error,
            r.errors@.len() == 0,
    {
        Lox { had_error: false, errors: Vec::new() }
    }

    /// Records `message` for `line`, with no place within the line.
    pub fn error(&mut self, line: usize, message: String)
        ensures
            final(self).wf(),
            final(self).had_error,
            final(self).errors@.len() == old(self).errors@.len() + 1,
            final(self).errors@.take(old(self).errors@.len() as int) == old(self).errors@,
            final(self).errors@.last().line == line,
            final(self).errors@.last().place@.len() == 0,
            final(self).errors@.last().message == message,
    {
        self.report(line, String::new(), message)
    }

    /// Records one diagnostic after all those recorded before.
    pub fn report(&mut self, line: usize, place: String, message: String)
        ensures
            final(self).wf(),
            final(self).had_error,
            final(self).errors@ == old(self).errors@.push((Error { line, place, message })),
    {
        self.had_error = true;
        let error = Error::new(line, place, message);
        self.errors.push(error);
    }

    pub fn has_errors(&self) -> (r: bool)
        requires
            self.wf(),
        ensures
            r == (self.errors@.len() > 0),
    {
        self.had_error
    }
}

/// The decimal digit `d`, for `d < 10`.
pub open spec fn digit_char(d: nat) -> char {
    if d == 0 {
        '0'
    } else if d == 1 {
        '1'
    } else if d == 2 {
        '2'
    } else if d == 3 {
        '3'
    } else if d == 4 {
        '4'
    } else if d == 5 {
        '5'
    } else if d == 6 {
        '6'
    } else if d == 7 {
        '7'
    } else if d == 8 {
        '8'
    } else {
        '9'
    }
}

/// `n` written in decimal, without leading zeros.
pub open spec fn decimal(n: nat) -> Seq<char>
    decreases n,
{
    if n < 10 {
        seq![digit_char(n)]
    } else {
        decimal(n / 10).push(digit_char(n % 10))
    }
}

/// One diagnostic as a line of the report: `[line <n>] Error<place>: <message>`.
pub open spec fn report_line(e: Error) -> Seq<char> {
    "[line "@ + decimal(e.line as nat) + "] Error"@ + e.place@ + ": "@ + e.message@ + "\n"@
}

/// The report of `errors`: one line each, in order.
pub open spec fn report_text(errors: Seq<Error>) -> Seq<char>
    decreases errors.len(),
{
    if errors.len() == 0 {
        Seq::empty()
    } else {
        report_text(errors.drop_last()) + report_line(errors.last())
    }
}

fn digit_str(d: usize) -> (r: &'static str)
    requires
        d < 10,
    ensures
        r@ == seq![digit_char(d as nat)],
{
    proof {
        reveal_strlit("0");
        reveal_strlit("1");
        reveal_strlit("2");
        reveal_strlit("3");
        reveal_strlit("4");
        reveal_strlit("5");
        reveal_strlit("6");
        reveal_strlit("7");
        reveal_strlit("8");
        reveal_strlit("9");
    }
    if d == 0 {
        "0"
    } else if d == 1 {
        "1"
    } else if d == 2 {
        "2"
    } else if d == 3 {
        "3"
    } else if d == 4 {
        "4"
    } else if d == 5 {
        "5"
    } else if d == 6 {
        "6"
    } else if d == 7 {
        "7"
    } else if d == 8 {
        "8"
    } else {
        "9"
    }
}

/// Appends `n` in decimal to `out`.
pub fn write_decimal(out: &mut String, n: usize)
    ensures
        final(out)@ == old(out)@ + decimal(n as nat),
    decreases n,
{
    if n >= 10 {
        write_decimal(out, n / 10);
    }
    out.append(digit_str(n % 10));
    assert(out@ =~= old(out)@ + decimal(n as nat));
}

impl Lox {
    /// The diagnostics as a report, one line each, in order.
    pub fn report_string(&self) -> (r: String)
        ensures
            r@ == report_text(self.errors@),
    {
        let mut out = String::new();
        let mut i: usize = 0;
        while i < self.errors.len()
            invariant
                i <= self.errors@.len(),
                out@ == report_text(self.errors@.take(i as int)),
            decreases self.errors@.len() - i,
        {
            let e = &self.errors[i];
            out.append("[line ");
            write_decimal(&mut out, e.line);
            out.append("] Error");
            out.append(e.place.as_str());
            out.append(": ");
            out.append(e.message.as_str());
            out.append("\n");
            proof {
                let next = self.errors@.take(i + 1);
                assert(next.drop_last() =~= self.errors@.take(i as int));
                assert(out@ =~= report_text(next));
            }
            i += 1;
        }
        assert(self.errors@.take(self.errors@.len() as int) =~= self.errors@);
        out
    }
}

} // verus!
