use vstd::prelude::*;
use vstd::string::StringExecFns;

verus! {

/// One recorded diagnostic: where it happened and what went wrong.
pub struct Report {
    pub line: usize,
    pub location: String,
    pub message: String,
}

/// Mathematical model of a [`Report`].
pub struct ReportView {
    pub line: nat,
    pub location: Seq<char>,
    pub message: Seq<char>,
}

impl View for Report {
    type V = ReportView;

    open spec fn view(&self) -> ReportView {
        ReportView { line: self.line as nat, location: self.location@, message: self.message@ }
    }
}

/// Sink for diagnostics. It keeps every report in arrival order and remembers
/// whether anything was reported at all.
pub struct ErrorReporter {
    pub had_error: bool,
    pub reports: Vec<Report>,
}

impl ErrorReporter {
    /// The reports recorded so far, oldest first.
    pub open spec fn log(&self) -> Seq<ReportView> {
        Seq::new(self.reports@.len(), |i: int| self.reports@[i]@)
    }

    /// The flag is raised exactly when something has been recorded.
    pub open spec fn wf(&self) -> bool {
        self.had_error == (self.reports@.len() > 0)
    }

    /// A sink that has seen no error.
    pub fn new() -> (r: Self)
        ensures
            r.wf(),
            !r.had_error,
            r.log() == Seq::<ReportView>::empty(),
    {
        let r = Self { had_error: false, reports: Vec::new() };
        assert(r.log() =~= Seq::<ReportView>::empty());
        r
    }

    /// Records a diagnostic that has no location text.
    pub fn error(&mut self, line: usize, msg: &str)
        requires
            old(self).wf(),
        ensures
            final(self).wf(),
            final(self).had_error,
            final(self).log() == old(self).log().push(
                ReportView { line: line as nat, location: Seq::<char>::empty(), message: msg@ },
            ),
    {
        proof {
            reveal_strlit("");
        }
        assert(""@ =~= Seq::<char>::empty());
        self.report(line, "", msg);
    }

    /// Records a diagnostic and raises the error flag.
    pub fn report(&mut self, line: usize, loc: &str, msg: &str)
        requires
            old(self).wf(),
        ensures
            final(self).wf(),
            final(self).had_error,
            final(self).log() == old(self).log().push(
                ReportView { line: line as nat, location: loc@, message: msg@ },
            ),
    {
        let r = Report { line, location: String::from_str(loc), message: String::from_str(msg) };
        self.reports.push(r);
        self.had_error = true;
        assert(self.log() =~= old(self).log().push(
            ReportView { line: line as nat, location: loc@, message: msg@ },
        ));
    }

    /// Whether anything has been reported.
    pub fn had_error(&self) -> (b: bool)
        ensures
            b == self.had_error,
    {
        self.had_error
    }
}

} // verus!
