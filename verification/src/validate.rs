//! Validation findings, the report that collects them, and the reference
//! checks validation is built from.
//!
//! Validation is *schema-level*: do the ids referenced actually exist, are the
//! numbers physically possible, are required per-type params present. Each
//! finding is addressed to an element so the editor can pan to it.

use vstd::prelude::*;
use vstd::string::StringExecFns;
use crate::text::{decimal, spec_decimal};
use crate::venue::ComponentType;

verus! {

#[derive(Clone, Copy, Debug, PartialEq, Eq, PartialOrd, Ord, Structural)]
pub enum Severity {
    /// The document cannot be compiled or simulated.
    Error,
    /// Simulable, but the result is likely not what the author intended.
    Warning,
    /// Worth surfacing in the validation panel, harmless to ignore.
    Info,
}

/// One validation finding, addressed to a specific element so the editor can
/// pan to it.
#[derive(Clone, Debug, PartialEq)]
pub struct Issue {
    pub severity: Severity,
    /// Stable machine-readable code, e.g. `opening.orphan_wall`.
    pub code: String,
    /// Id of the offending element, if there is one.
    pub element: Option<String>,
    pub message: String,
}

impl Issue {
    pub fn new(severity: Severity, code: &str, element: Option<String>, message: String) -> (i:
        Issue)
        ensures
            i.severity == severity,
            i.code@ == code@,
            i.element == element,
            i.message == message,
    {
        Issue { severity, code: code.to_owned(), element, message }
    }

    /// An error finding addressed to `element`.
    pub fn error(code: &str, element: String, message: String) -> (i: Issue)
        ensures
            i.severity == Severity::Error,
            i.code@ == code@,
            i.element == Some(element),
            i.message == message,
    {
        Self::new(Severity::Error, code, Some(element), message)
    }

    /// A warning finding addressed to `element`.
    pub fn warn(code: &str, element: String, message: String) -> (i: Issue)
        ensures
            i.severity == Severity::Warning,
            i.code@ == code@,
            i.element == Some(element),
            i.message == message,
    {
        Self::new(Severity::Warning, code, Some(element), message)
    }
}

/// A severity's name, as a finding's line shows it.
pub open spec fn severity_name(s: Severity) -> Seq<char> {
    match s {
        Severity::Error => "Error"@,
        Severity::Warning => "Warning"@,
        Severity::Info => "Info"@,
    }
}

fn severity_label(s: Severity) -> (r: &'static str)
    ensures
        r@ == severity_name(s),
{
    match s {
        Severity::Error => "Error",
        Severity::Warning => "Warning",
        Severity::Info => "Info",
    }
}

impl Issue {
    /// The finding on one line: `[Severity] code (element): message`, without
    /// the parenthesised element when there is none.
    pub open spec fn text(&self) -> Seq<char> {
        let head = "["@ + severity_name(self.severity) + "] "@ + self.code@;
        match self.element {
            Some(e) => head + " ("@ + e@ + "): "@ + self.message@,
            None => head + ": "@ + self.message@,
        }
    }

    /// The finding on one line: `[Severity] code (element): message`, without
    /// the parenthesised element when there is none.
    pub fn to_string(&self) -> (r: String)
        ensures
            r@ == self.text(),
    {
        let head = String::from_str("[").concat(severity_label(self.severity)).concat("] ").concat(
            self.code.as_str(),
        );
        match &self.element {
            Some(e) => head.concat(" (").concat(e.as_str()).concat("): ").concat(
                self.message.as_str(),
            ),
            None => head.concat(": ").concat(self.message.as_str()),
        }
    }
}

/// The issues' lines, each ended by a newline.
pub open spec fn issue_lines(issues: Seq<Issue>) -> Seq<char>
    decreases issues.len(),
{
    if issues.len() == 0 {
        Seq::empty()
    } else {
        issue_lines(issues.drop_last()) + issues.last().text() + "\n"@
    }
}

/// Collected findings.
#[derive(Clone, Debug, PartialEq)]
pub struct Report {
    pub issues: Vec<Issue>,
}

/// How many of the issues have severity `s`.
pub open spec fn count_severity(issues: Seq<Issue>, s: Severity) -> nat
    decreases issues.len(),
{
    if issues.len() == 0 {
        0
    } else {
        count_severity(issues.drop_last(), s) + if issues.last().severity == s {
            1nat
        } else {
            0nat
        }
    }
}

/// The issues of severity `s`, in report order.
pub open spec fn issues_of(issues: Seq<Issue>, s: Severity) -> Seq<Issue>
    decreases issues.len(),
{
    if issues.len() == 0 {
        Seq::empty()
    } else {
        let p = issues_of(issues.drop_last(), s);
        if issues.last().severity == s {
            p.push(issues.last())
        } else {
            p
        }
    }
}

/// Some issue is an error.
pub open spec fn spec_has_errors(issues: Seq<Issue>) -> bool {
    exists|i: int| 0 <= i < issues.len() && (#[trigger] issues[i]).severity == Severity::Error
}

/// Listing the issues of a severity finds as many as counting them: the error
/// list of a report is as long as its error count.
pub proof fn lemma_issues_of_len(issues: Seq<Issue>, s: Severity)
    ensures
        issues_of(issues, s).len() == count_severity(issues, s),
    decreases issues.len(),
{
    if issues.len() > 0 {
        lemma_issues_of_len(issues.drop_last(), s);
    }
}

/// A report has errors exactly when it counts more than zero of them.
pub proof fn lemma_errors_counted(issues: Seq<Issue>)
    ensures
        spec_has_errors(issues) == (count_severity(issues, Severity::Error) > 0),
    decreases issues.len(),
{
    if issues.len() > 0 {
        lemma_errors_counted(issues.drop_last());
        let d = issues.drop_last();
        if spec_has_errors(d) {
            let i = choose|i: int| 0 <= i < d.len() && (#[trigger] d[i]).severity == Severity::Error;
            assert(issues[i] == d[i]);
        }
        if spec_has_errors(issues) && issues.last().severity != Severity::Error {
            let i = choose|i: int|
                0 <= i < issues.len() && (#[trigger] issues[i]).severity == Severity::Error;
            assert(d[i] == issues[i]);
        }
        if issues.last().severity == Severity::Error {
            assert(issues[issues.len() - 1].severity == Severity::Error);
        }
    }
}

impl Report {
    /// An empty report.
    pub fn new() -> (r: Report)
        ensures
            r.issues@.len() == 0,
    {
        Report { issues: Vec::new() }
    }

    /// No finding blocks compilation or simulation.
    pub fn is_ok(&self) -> (r: bool)
        ensures
            r == !spec_has_errors(self.issues@),
    {
        !self.has_errors()
    }

    pub fn has_errors(&self) -> (r: bool)
        ensures
            r == spec_has_errors(self.issues@),
    {
        let mut i: usize = 0;
        while i < self.issues.len()
            invariant
                i <= self.issues@.len(),
                forall|j: int| 0 <= j < i ==> (#[trigger] self.issues@[j]).severity != Severity::Error,
            decreases self.issues.len() - i,
        {
            if self.issues[i].severity == Severity::Error {
                return true;
            }
            i += 1;
        }
        false
    }

    /// The error findings, in report order.
    pub fn errors(&self) -> (r: Vec<&Issue>)
        ensures
            r@.len() == issues_of(self.issues@, Severity::Error).len(),
            forall|j: int|
                0 <= j < r@.len() ==> *#[trigger] r@[j] == issues_of(self.issues@, Severity::Error)[j],
    {
        let mut out: Vec<&Issue> = Vec::new();
        let mut i: usize = 0;
        while i < self.issues.len()
            invariant
                i <= self.issues@.len(),
                out@.len() == issues_of(self.issues@.subrange(0, i as int), Severity::Error).len(),
                forall|j: int|
                    0 <= j < out@.len() ==> *#[trigger] out@[j] == issues_of(
                        self.issues@.subrange(0, i as int),
                        Severity::Error,
                    )[j],
            decreases self.issues.len() - i,
        {
            assert(self.issues@.subrange(0, i + 1).drop_last() =~= self.issues@.subrange(
                0,
                i as int,
            ));
            if self.issues[i].severity == Severity::Error {
                out.push(&self.issues[i]);
            }
            i += 1;
        }
        assert(self.issues@.subrange(0, self.issues@.len() as int) =~= self.issues@);
        out
    }

    /// How many findings have severity `s`.
    pub fn count(&self, s: Severity) -> (c: usize)
        ensures
            c == count_severity(self.issues@, s),
    {
        let mut c: usize = 0;
        let mut i: usize = 0;
        while i < self.issues.len()
            invariant
                i <= self.issues@.len(),
                c == count_severity(self.issues@.subrange(0, i as int), s),
                c <= i,
            decreases self.issues.len() - i,
        {
            assert(self.issues@.subrange(0, i + 1).drop_last() =~= self.issues@.subrange(
                0,
                i as int,
            ));
            if self.issues[i].severity == s {
                c += 1;
            }
            i += 1;
        }
        assert(self.issues@.subrange(0, self.issues@.len() as int) =~= self.issues@);
        c
    }

    pub fn push(&mut self, i: Issue)
        ensures
            final(self).issues@ == old(self).issues@.push(i),
    {
        self.issues.push(i);
    }

    /// The report as text: `no issues` when it is empty, else one line per
    /// issue, in order.
    pub open spec fn text(&self) -> Seq<char> {
        if self.issues@.len() == 0 {
            "no issues"@
        } else {
            issue_lines(self.issues@)
        }
    }

    /// The report as text: `no issues` when it is empty, else one line per
    /// issue, in order.
    pub fn to_string(&self) -> (r: String)
        ensures
            r@ == self.text(),
    {
        if self.issues.len() == 0 {
            return String::from_str("no issues");
        }
        let mut out = String::new();
        let mut k: usize = 0;
        while k < self.issues.len()
            invariant
                k <= self.issues@.len(),
                out@ == issue_lines(self.issues@.take(k as int)),
            decreases self.issues@.len() - k,
        {
            let line = self.issues[k].to_string();
            proof {
                assert(self.issues@.take(k + 1).drop_last() =~= self.issues@.take(k as int));
            }
            out = out.concat(line.as_str()).concat("\n");
            k = k + 1;
        }
        proof {
            assert(self.issues@.take(k as int) =~= self.issues@);
        }
        out
    }
}

impl Default for Report {
    fn default() -> (r: Report)
        ensures
            r.issues@.len() == 0,
    {
        Report { issues: Vec::new() }
    }
}

/// `ids` lists `id`.
pub open spec fn spec_contains_id(ids: Seq<String>, id: Seq<char>) -> bool {
    exists|j: int| 0 <= j < ids.len() && (#[trigger] ids[j])@ == id
}

/// An id is known exactly when it is one of the listed ids' texts; adding an
/// id to a list makes it known and keeps every id that was known.
pub proof fn lemma_known_ids(ids: Seq<String>, id: Seq<char>, extra: String)
    ensures
        spec_contains_id(ids, id) <==> ids.map_values(|s: String| s@).contains(id),
        spec_contains_id(ids.push(extra), extra@),
        spec_contains_id(ids, id) ==> spec_contains_id(ids.push(extra), id),
        spec_contains_id(Seq::empty(), id) == false,
{
    let texts = ids.map_values(|s: String| s@);
    if spec_contains_id(ids, id) {
        let j = choose|j: int| 0 <= j < ids.len() && (#[trigger] ids[j])@ == id;
        assert(texts[j] == id);
        assert(ids.push(extra)[j] == ids[j]);
    }
    if texts.contains(id) {
        let j = choose|j: int| 0 <= j < texts.len() && texts[j] == id;
        assert(ids[j]@ == id);
    }
    assert(ids.push(extra)[ids.len() as int] == extra);
}

/// Is `id` among `ids`?
pub fn contains_id(ids: &Vec<String>, id: &String) -> (r: bool)
    ensures
        r == spec_contains_id(ids@, id@),
{
    let mut j: usize = 0;
    while j < ids.len()
        invariant
            j <= ids@.len(),
            forall|q: int| 0 <= q < j ==> (#[trigger] ids@[q])@ != id@,
        decreases ids.len() - j,
    {
        if ids[j] == *id {
            return true;
        }
        j += 1;
    }
    false
}

/// For each id, whether the same id already occurred earlier in the list —
/// the second and later copies of a duplicated id.
pub fn repeats_earlier(ids: &Vec<String>) -> (r: Vec<bool>)
    ensures
        r@.len() == ids@.len(),
        forall|i: int|
            0 <= i < ids@.len() ==> #[trigger] r@[i] == spec_contains_id(
                ids@.subrange(0, i),
                ids@[i]@,
            ),
{
    let mut out: Vec<bool> = Vec::new();
    let mut i: usize = 0;
    while i < ids.len()
        invariant
            i <= ids@.len(),
            out@.len() == i,
            forall|k: int|
                0 <= k < i ==> #[trigger] out@[k] == spec_contains_id(ids@.subrange(0, k), ids@[k]@),
        decreases ids.len() - i,
    {
        let mut seen = false;
        let mut j: usize = 0;
        while j < i
            invariant
                i < ids@.len(),
                j <= i,
                seen == exists|q: int| 0 <= q < j && (#[trigger] ids@[q])@ == ids@[i as int]@,
            decreases i - j,
        {
            if ids[j] == ids[i] {
                seen = true;
            }
            j += 1;
        }
        proof {
            let pre = ids@.subrange(0, i as int);
            if seen {
                let q = choose|q: int| 0 <= q < i && (#[trigger] ids@[q])@ == ids@[i as int]@;
                assert(pre[q] == ids@[q]);
            }
            if spec_contains_id(pre, ids@[i as int]@) {
                let q = choose|q: int| 0 <= q < pre.len() && (#[trigger] pre[q])@ == ids@[i as int]@;
                assert(ids@[q] == pre[q]);
            }
        }
        out.push(seen);
        i += 1;
    }
    out
}


/// Which of a component's optional parameters are present, and its lane count:
/// what the per-type requirements read.
#[derive(Clone, Copy, Debug)]
pub struct ParamPresence {
    pub lanes: Option<u32>,
    pub service_time: bool,
    pub max_throughput: bool,
    pub rows: bool,
    pub cols: bool,
    pub seat_pitch: bool,
    pub row_pitch: bool,
    pub footprint: bool,
    pub heading: bool,
}

/// A finding as severity, code and message.
pub type Finding = (Severity, Seq<char>, Seq<char>);

/// The finding `(s, code, msg)` when `c` holds, otherwise nothing.
pub open spec fn finding_if(c: bool, s: Severity, code: Seq<char>, msg: Seq<char>) -> Seq<Finding> {
    if c {
        seq![(s, code, msg)]
    } else {
        Seq::empty()
    }
}

/// How a component type is named in findings.
pub open spec fn spec_component_type_name(t: ComponentType) -> Seq<char> {
    match t {
        ComponentType::Turnstile => "Turnstile"@,
        ComponentType::SecurityCheckpoint => "SecurityCheckpoint"@,
        ComponentType::RegistrationDesk => "RegistrationDesk"@,
        ComponentType::TicketCounter => "TicketCounter"@,
        ComponentType::Barricade => "Barricade"@,
        ComponentType::SeatingBlock => "SeatingBlock"@,
        ComponentType::Stall => "Stall"@,
        ComponentType::Sign => "Sign"@,
    }
}

/// The findings a component's type requires of its parameters, in order: a
/// zero lane count first, then what the type needs. Range checks on measured
/// values are not among them.
pub open spec fn spec_requirement_findings(t: ComponentType, p: ParamPresence, queue_area: bool) -> Seq<Finding> {
    let missing = "component.missing_param"@;
    let name = spec_component_type_name(t);
    finding_if(p.lanes == Some(0u32), Severity::Error, "component.zero_lanes"@, "lanes must be >= 1"@)
        + match t {
        ComponentType::Turnstile => finding_if(
            p.lanes is None,
            Severity::Error,
            missing,
            "turnstile requires 'lanes'"@,
        ) + finding_if(
            !p.service_time && !p.max_throughput,
            Severity::Error,
            missing,
            "turnstile requires 'serviceTime' or 'maxThroughputPph'"@,
        ),
        ComponentType::SecurityCheckpoint
        | ComponentType::RegistrationDesk
        | ComponentType::TicketCounter => finding_if(
            !p.service_time,
            Severity::Error,
            missing,
            name + " requires 'serviceTime'"@,
        ) + finding_if(
            p.lanes is None,
            Severity::Warning,
            missing,
            name + " has no 'lanes'; assuming 1 server"@,
        ) + finding_if(
            !queue_area,
            Severity::Warning,
            "component.no_queue_area"@,
            "no queueArea bound; agents will queue in free space"@,
        ),
        ComponentType::SeatingBlock => finding_if(
            !p.rows || !p.cols,
            Severity::Error,
            missing,
            "seatingBlock requires 'rows' and 'cols'"@,
        ) + finding_if(
            !p.seat_pitch || !p.row_pitch,
            Severity::Warning,
            missing,
            "seatingBlock has no seatPitchM/rowPitchM; defaults will be applied"@,
        ),
        ComponentType::Barricade | ComponentType::Stall => finding_if(
            !p.footprint,
            Severity::Error,
            missing,
            name + " requires 'footprint'"@,
        ),
        ComponentType::Sign => finding_if(
            !p.heading,
            Severity::Error,
            missing,
            "sign requires 'headingDeg'"@,
        ),
    }
}

/// The issues are the findings, in order, each addressed to `id`.
pub open spec fn issues_match(issues: Seq<Issue>, fs: Seq<Finding>, id: Seq<char>) -> bool {
    &&& issues.len() == fs.len()
    &&& forall|k: int|
        0 <= k < issues.len() ==> {
            &&& (#[trigger] issues[k]).severity == fs[k].0
            &&& issues[k].code@ == fs[k].1
            &&& issues[k].message@ == fs[k].2
            &&& issues[k].element matches Some(e) && e@ == id
        }
}

/// How a component type is named in findings.
pub fn component_type_name(t: ComponentType) -> (r: &'static str)
    ensures
        r@ == spec_component_type_name(t),
{
    match t {
        ComponentType::Turnstile => "Turnstile",
        ComponentType::SecurityCheckpoint => "SecurityCheckpoint",
        ComponentType::RegistrationDesk => "RegistrationDesk",
        ComponentType::TicketCounter => "TicketCounter",
        ComponentType::Barricade => "Barricade",
        ComponentType::SeatingBlock => "SeatingBlock",
        ComponentType::Stall => "Stall",
        ComponentType::Sign => "Sign",
    }
}

fn push_finding(
    out: &mut Vec<Issue>,
    Ghost(fs): Ghost<Seq<Finding>>,
    c: bool,
    s: Severity,
    code: &str,
    id: &str,
    msg: String,
)
    requires
        issues_match(old(out)@, fs, id@),
    ensures
        issues_match(final(out)@, fs + finding_if(c, s, code@, msg@), id@),
{
    if c {
        out.push(Issue::new(s, code, Some(id.to_owned()), msg));
        proof {
            let f = fs + finding_if(c, s, code@, msg@);
            assert forall|k: int| 0 <= k < out@.len() implies {
                &&& (#[trigger] out@[k]).severity == f[k].0
                &&& out@[k].code@ == f[k].1
                &&& out@[k].message@ == f[k].2
                &&& out@[k].element matches Some(e) && e@ == id@
            } by {
                if k < fs.len() {
                    assert(out@[k] == old(out)@[k]);
                }
            }
        }
    } else {
        assert(fs + finding_if(c, s, code@, msg@) =~= fs);
    }
}

/// The findings for a component's parameter requirements, in order, each
/// addressed to the component `id`: a zero lane count, then what its type
/// needs present.
pub fn component_requirements(id: &str, t: ComponentType, p: ParamPresence, queue_area: bool) -> (r: Vec<Issue>)
    ensures
        issues_match(r@, spec_requirement_findings(t, p, queue_area), id@),
{
    let missing = "component.missing_param";
    let mut out: Vec<Issue> = Vec::new();
    let zero = match p.lanes {
        Some(n) => n == 0,
        None => false,
    };
    push_finding(
        &mut out,
        Ghost(Seq::empty()),
        zero,
        Severity::Error,
        "component.zero_lanes",
        id,
        "lanes must be >= 1".to_owned(),
    );
    let ghost head = Seq::<Finding>::empty() + finding_if(
        p.lanes == Some(0u32),
        Severity::Error,
        "component.zero_lanes"@,
        "lanes must be >= 1"@,
    );
    let ghost name = spec_component_type_name(t);
    match t {
        ComponentType::Turnstile => {
            push_finding(
                &mut out,
                Ghost(head),
                p.lanes.is_none(),
                Severity::Error,
                missing,
                id,
                "turnstile requires 'lanes'".to_owned(),
            );
            let ghost f1 = finding_if(p.lanes is None, Severity::Error, missing@, "turnstile requires 'lanes'"@);
            push_finding(
                &mut out,
                Ghost(head + f1),
                !p.service_time && !p.max_throughput,
                Severity::Error,
                missing,
                id,
                "turnstile requires 'serviceTime' or 'maxThroughputPph'".to_owned(),
            );
            let ghost f2 = finding_if(
                !p.service_time && !p.max_throughput,
                Severity::Error,
                missing@,
                "turnstile requires 'serviceTime' or 'maxThroughputPph'"@,
            );
            assert(head + f1 + f2 =~= spec_requirement_findings(t, p, queue_area));
        },
        ComponentType::SecurityCheckpoint
        | ComponentType::RegistrationDesk
        | ComponentType::TicketCounter => {
            let m1 = String::from_str(component_type_name(t)).concat(" requires 'serviceTime'");
            push_finding(&mut out, Ghost(head), !p.service_time, Severity::Error, missing, id, m1);
            let ghost f1 = finding_if(
                !p.service_time,
                Severity::Error,
                missing@,
                name + " requires 'serviceTime'"@,
            );
            let m2 = String::from_str(component_type_name(t)).concat(
                " has no 'lanes'; assuming 1 server",
            );
            push_finding(&mut out, Ghost(head + f1), p.lanes.is_none(), Severity::Warning, missing, id, m2);
            let ghost f2 = finding_if(
                p.lanes is None,
                Severity::Warning,
                missing@,
                name + " has no 'lanes'; assuming 1 server"@,
            );
            push_finding(
                &mut out,
                Ghost(head + f1 + f2),
                !queue_area,
                Severity::Warning,
                "component.no_queue_area",
                id,
                "no queueArea bound; agents will queue in free space".to_owned(),
            );
            let ghost f3 = finding_if(
                !queue_area,
                Severity::Warning,
                "component.no_queue_area"@,
                "no queueArea bound; agents will queue in free space"@,
            );
            assert(head + f1 + f2 + f3 =~= spec_requirement_findings(t, p, queue_area));
        },
        ComponentType::SeatingBlock => {
            push_finding(
                &mut out,
                Ghost(head),
                !p.rows || !p.cols,
                Severity::Error,
                missing,
                id,
                "seatingBlock requires 'rows' and 'cols'".to_owned(),
            );
            let ghost f1 = finding_if(
                !p.rows || !p.cols,
                Severity::Error,
                missing@,
                "seatingBlock requires 'rows' and 'cols'"@,
            );
            push_finding(
                &mut out,
                Ghost(head + f1),
                !p.seat_pitch || !p.row_pitch,
                Severity::Warning,
                missing,
                id,
                "seatingBlock has no seatPitchM/rowPitchM; defaults will be applied".to_owned(),
            );
            let ghost f2 = finding_if(
                !p.seat_pitch || !p.row_pitch,
                Severity::Warning,
                missing@,
                "seatingBlock has no seatPitchM/rowPitchM; defaults will be applied"@,
            );
            assert(head + f1 + f2 =~= spec_requirement_findings(t, p, queue_area));
        },
        ComponentType::Barricade | ComponentType::Stall => {
            let m1 = String::from_str(component_type_name(t)).concat(" requires 'footprint'");
            push_finding(&mut out, Ghost(head), !p.footprint, Severity::Error, missing, id, m1);
            let ghost f1 = finding_if(
                !p.footprint,
                Severity::Error,
                missing@,
                name + " requires 'footprint'"@,
            );
            assert(head + f1 =~= spec_requirement_findings(t, p, queue_area));
        },
        ComponentType::Sign => {
            push_finding(
                &mut out,
                Ghost(head),
                !p.heading,
                Severity::Error,
                missing,
                id,
                "sign requires 'headingDeg'".to_owned(),
            );
            let ghost f1 = finding_if(
                !p.heading,
                Severity::Error,
                missing@,
                "sign requires 'headingDeg'"@,
            );
            assert(head + f1 =~= spec_requirement_findings(t, p, queue_area));
        },
    }
    out
}


/// Pushing an error makes a report not ok; pushing anything else leaves its
/// standing as it was.
pub proof fn lemma_push_standing(issues: Seq<Issue>, i: Issue)
    ensures
        spec_has_errors(issues.push(i)) == (spec_has_errors(issues) || i.severity == Severity::Error),
{
    let p = issues.push(i);
    if spec_has_errors(issues) {
        let k = choose|k: int| 0 <= k < issues.len() && (#[trigger] issues[k]).severity == Severity::Error;
        assert(p[k] == issues[k]);
    }
    if i.severity == Severity::Error {
        assert(p[issues.len() as int] == i);
    }
    if spec_has_errors(p) && i.severity != Severity::Error {
        let k = choose|k: int| 0 <= k < p.len() && (#[trigger] p[k]).severity == Severity::Error;
        assert(k < issues.len());
        assert(issues[k] == p[k]);
    }
}


proof fn lemma_concat_contains<A>(a: Seq<A>, b: Seq<A>, x: A)
    ensures
        (a + b).contains(x) <==> a.contains(x) || b.contains(x),
{
    if a.contains(x) {
        let m = choose|m: int| 0 <= m < a.len() && a[m] == x;
        assert((a + b)[m] == x);
    }
    if b.contains(x) {
        let m = choose|m: int| 0 <= m < b.len() && b[m] == x;
        assert((a + b)[a.len() + m] == x);
    }
    if (a + b).contains(x) {
        let m = choose|m: int| 0 <= m < (a + b).len() && (a + b)[m] == x;
        if m < a.len() {
            assert(a[m] == x);
        } else {
            assert(b[m - a.len()] == x);
        }
    }
}

proof fn lemma_finding_if_contains(c: bool, s: Severity, code: Seq<char>, msg: Seq<char>, f: Finding)
    ensures
        finding_if(c, s, code, msg).contains(f) <==> c && f == (s, code, msg),
{
    if c {
        assert(finding_if(c, s, code, msg)[0] == (s, code, msg));
    }
}

/// A component's parameter findings say exactly what its type lacks: a zero
/// lane count is reported exactly when the lane count is zero, and each
/// requirement of the type is reported exactly when the parameters fail it.
/// A turnstile needs `lanes` and a service time or a throughput; a checkpoint,
/// desk or counter needs a service time (and is warned about missing lanes or
/// queue area); a seating block needs both `rows` and `cols` (and is warned
/// when either pitch is missing); a barricade or stall needs a footprint; a
/// sign needs a heading.
pub proof fn lemma_requirements_report_what_is_missing(t: ComponentType, p: ParamPresence, queue_area: bool)
    ensures
        ({
            let fs = spec_requirement_findings(t, p, queue_area);
            let missing = "component.missing_param"@;
            let name = spec_component_type_name(t);
            &&& fs.contains((Severity::Error, "component.zero_lanes"@, "lanes must be >= 1"@)) <==> p.lanes
                == Some(0u32)
            &&& t == ComponentType::Turnstile ==> {
                &&& fs.contains((Severity::Error, missing, "turnstile requires 'lanes'"@)) <==> p.lanes is None
                &&& fs.contains(
                    (Severity::Error, missing, "turnstile requires 'serviceTime' or 'maxThroughputPph'"@),
                ) <==> (!p.service_time && !p.max_throughput)
            }
            &&& (t == ComponentType::SecurityCheckpoint || t == ComponentType::RegistrationDesk || t
                == ComponentType::TicketCounter) ==> {
                &&& fs.contains((Severity::Error, missing, name + " requires 'serviceTime'"@))
                    <==> !p.service_time
                &&& fs.contains((Severity::Warning, missing, name + " has no 'lanes'; assuming 1 server"@))
                    <==> p.lanes is None
                &&& fs.contains(
                    (
                        Severity::Warning,
                        "component.no_queue_area"@,
                        "no queueArea bound; agents will queue in free space"@,
                    ),
                ) <==> !queue_area
            }
            &&& t == ComponentType::SeatingBlock ==> {
                &&& fs.contains((Severity::Error, missing, "seatingBlock requires 'rows' and 'cols'"@)) <==> (
                !p.rows || !p.cols)
                &&& fs.contains(
                    (
                        Severity::Warning,
                        missing,
                        "seatingBlock has no seatPitchM/rowPitchM; defaults will be applied"@,
                    ),
                ) <==> (!p.seat_pitch || !p.row_pitch)
            }
            &&& (t == ComponentType::Barricade || t == ComponentType::Stall) ==> (fs.contains(
                (Severity::Error, missing, name + " requires 'footprint'"@),
            ) <==> !p.footprint)
            &&& t == ComponentType::Sign ==> (fs.contains(
                (Severity::Error, missing, "sign requires 'headingDeg'"@),
            ) <==> !p.heading)
        }),
{
    reveal_strlit("component.missing_param");
    reveal_strlit("component.zero_lanes");
    reveal_strlit("turnstile requires 'lanes'");
    reveal_strlit("turnstile requires 'serviceTime' or 'maxThroughputPph'");
    let missing = "component.missing_param"@;
    let zcode = "component.zero_lanes"@;
    let zmsg = "lanes must be >= 1"@;
    assert(missing.len() != zcode.len());
    let name = spec_component_type_name(t);
    let z = finding_if(p.lanes == Some(0u32), Severity::Error, zcode, zmsg);
    let fs = spec_requirement_findings(t, p, queue_area);
    let zf = (Severity::Error, zcode, zmsg);
    lemma_finding_if_contains(p.lanes == Some(0u32), Severity::Error, zcode, zmsg, zf);
    match t {
        ComponentType::Turnstile => {
            let m1 = "turnstile requires 'lanes'"@;
            let m2 = "turnstile requires 'serviceTime' or 'maxThroughputPph'"@;
            assert(m1.len() != m2.len());
            let f1 = finding_if(p.lanes is None, Severity::Error, missing, m1);
            let f2 = finding_if(!p.service_time && !p.max_throughput, Severity::Error, missing, m2);
            assert(fs == z + (f1 + f2));
            let a = (Severity::Error, missing, m1);
            let b = (Severity::Error, missing, m2);
            lemma_concat_contains(z, f1 + f2, zf);
            lemma_concat_contains(f1, f2, zf);
            lemma_finding_if_contains(p.lanes is None, Severity::Error, missing, m1, zf);
            lemma_finding_if_contains(!p.service_time && !p.max_throughput, Severity::Error, missing, m2, zf);
            lemma_concat_contains(z, f1 + f2, a);
            lemma_concat_contains(f1, f2, a);
            lemma_finding_if_contains(p.lanes == Some(0u32), Severity::Error, zcode, zmsg, a);
            lemma_finding_if_contains(p.lanes is None, Severity::Error, missing, m1, a);
            lemma_finding_if_contains(!p.service_time && !p.max_throughput, Severity::Error, missing, m2, a);
            lemma_concat_contains(z, f1 + f2, b);
            lemma_concat_contains(f1, f2, b);
            lemma_finding_if_contains(p.lanes == Some(0u32), Severity::Error, zcode, zmsg, b);
            lemma_finding_if_contains(p.lanes is None, Severity::Error, missing, m1, b);
            lemma_finding_if_contains(!p.service_time && !p.max_throughput, Severity::Error, missing, m2, b);
        },
        ComponentType::SecurityCheckpoint
        | ComponentType::RegistrationDesk
        | ComponentType::TicketCounter => {
            let m1 = name + " requires 'serviceTime'"@;
            let m2 = name + " has no 'lanes'; assuming 1 server"@;
            let qcode = "component.no_queue_area"@;
            let qmsg = "no queueArea bound; agents will queue in free space"@;
            reveal_strlit("component.no_queue_area");
            assert(qcode[10] != missing[10]);
            assert(qcode != missing);
            assert(qcode.len() != zcode.len());
            let f1 = finding_if(!p.service_time, Severity::Error, missing, m1);
            let f2 = finding_if(p.lanes is None, Severity::Warning, missing, m2);
            let f3 = finding_if(!queue_area, Severity::Warning, qcode, qmsg);
            assert(fs == z + (f1 + (f2 + f3)));
            let a = (Severity::Error, missing, m1);
            let b = (Severity::Warning, missing, m2);
            let c = (Severity::Warning, qcode, qmsg);
            lemma_concat_contains(z, f1 + (f2 + f3), zf);
            lemma_concat_contains(f1, f2 + f3, zf);
            lemma_concat_contains(f2, f3, zf);
            lemma_finding_if_contains(!p.service_time, Severity::Error, missing, m1, zf);
            lemma_finding_if_contains(p.lanes is None, Severity::Warning, missing, m2, zf);
            lemma_finding_if_contains(!queue_area, Severity::Warning, qcode, qmsg, zf);
            lemma_concat_contains(z, f1 + (f2 + f3), a);
            lemma_concat_contains(f1, f2 + f3, a);
            lemma_concat_contains(f2, f3, a);
            lemma_finding_if_contains(p.lanes == Some(0u32), Severity::Error, zcode, zmsg, a);
            lemma_finding_if_contains(!p.service_time, Severity::Error, missing, m1, a);
            lemma_finding_if_contains(p.lanes is None, Severity::Warning, missing, m2, a);
            lemma_finding_if_contains(!queue_area, Severity::Warning, qcode, qmsg, a);
            lemma_concat_contains(z, f1 + (f2 + f3), b);
            lemma_concat_contains(f1, f2 + f3, b);
            lemma_concat_contains(f2, f3, b);
            lemma_finding_if_contains(p.lanes == Some(0u32), Severity::Error, zcode, zmsg, b);
            lemma_finding_if_contains(!p.service_time, Severity::Error, missing, m1, b);
            lemma_finding_if_contains(p.lanes is None, Severity::Warning, missing, m2, b);
            lemma_finding_if_contains(!queue_area, Severity::Warning, qcode, qmsg, b);
            lemma_concat_contains(z, f1 + (f2 + f3), c);
            lemma_concat_contains(f1, f2 + f3, c);
            lemma_concat_contains(f2, f3, c);
            lemma_finding_if_contains(p.lanes == Some(0u32), Severity::Error, zcode, zmsg, c);
            lemma_finding_if_contains(!p.service_time, Severity::Error, missing, m1, c);
            lemma_finding_if_contains(p.lanes is None, Severity::Warning, missing, m2, c);
            lemma_finding_if_contains(!queue_area, Severity::Warning, qcode, qmsg, c);
        },
        ComponentType::SeatingBlock => {
            let m1 = "seatingBlock requires 'rows' and 'cols'"@;
            let m2 = "seatingBlock has no seatPitchM/rowPitchM; defaults will be applied"@;
            let f1 = finding_if(!p.rows || !p.cols, Severity::Error, missing, m1);
            let f2 = finding_if(!p.seat_pitch || !p.row_pitch, Severity::Warning, missing, m2);
            assert(fs == z + (f1 + f2));
            let a = (Severity::Error, missing, m1);
            let b = (Severity::Warning, missing, m2);
            lemma_concat_contains(z, f1 + f2, zf);
            lemma_concat_contains(f1, f2, zf);
            lemma_finding_if_contains(!p.rows || !p.cols, Severity::Error, missing, m1, zf);
            lemma_finding_if_contains(!p.seat_pitch || !p.row_pitch, Severity::Warning, missing, m2, zf);
            lemma_concat_contains(z, f1 + f2, a);
            lemma_concat_contains(f1, f2, a);
            lemma_finding_if_contains(p.lanes == Some(0u32), Severity::Error, zcode, zmsg, a);
            lemma_finding_if_contains(!p.rows || !p.cols, Severity::Error, missing, m1, a);
            lemma_finding_if_contains(!p.seat_pitch || !p.row_pitch, Severity::Warning, missing, m2, a);
            lemma_concat_contains(z, f1 + f2, b);
            lemma_concat_contains(f1, f2, b);
            lemma_finding_if_contains(p.lanes == Some(0u32), Severity::Error, zcode, zmsg, b);
            lemma_finding_if_contains(!p.rows || !p.cols, Severity::Error, missing, m1, b);
            lemma_finding_if_contains(!p.seat_pitch || !p.row_pitch, Severity::Warning, missing, m2, b);
        },
        ComponentType::Barricade | ComponentType::Stall => {
            let m1 = name + " requires 'footprint'"@;
            let f1 = finding_if(!p.footprint, Severity::Error, missing, m1);
            assert(fs == z + f1);
            let a = (Severity::Error, missing, m1);
            lemma_concat_contains(z, f1, zf);
            lemma_finding_if_contains(!p.footprint, Severity::Error, missing, m1, zf);
            lemma_concat_contains(z, f1, a);
            lemma_finding_if_contains(p.lanes == Some(0u32), Severity::Error, zcode, zmsg, a);
            lemma_finding_if_contains(!p.footprint, Severity::Error, missing, m1, a);
        },
        ComponentType::Sign => {
            let m1 = "sign requires 'headingDeg'"@;
            let f1 = finding_if(!p.heading, Severity::Error, missing, m1);
            assert(fs == z + f1);
            let a = (Severity::Error, missing, m1);
            lemma_concat_contains(z, f1, zf);
            lemma_finding_if_contains(!p.heading, Severity::Error, missing, m1, zf);
            lemma_concat_contains(z, f1, a);
            lemma_finding_if_contains(p.lanes == Some(0u32), Severity::Error, zcode, zmsg, a);
            lemma_finding_if_contains(!p.heading, Severity::Error, missing, m1, a);
        },
    }
}

/// The findings a component of type `t` can ever get from its parameter
/// requirements: the zero-lane error and the requirements of its own type.
pub open spec fn requirement_candidate(t: ComponentType, f: Finding) -> bool {
    let missing = "component.missing_param"@;
    let name = spec_component_type_name(t);
    ||| f == (Severity::Error, "component.zero_lanes"@, "lanes must be >= 1"@)
    ||| match t {
        ComponentType::Turnstile => f == (Severity::Error, missing, "turnstile requires 'lanes'"@) || f == (
            Severity::Error,
            missing,
            "turnstile requires 'serviceTime' or 'maxThroughputPph'"@,
        ),
        ComponentType::SecurityCheckpoint
        | ComponentType::RegistrationDesk
        | ComponentType::TicketCounter => f == (Severity::Error, missing, name + " requires 'serviceTime'"@)
            || f == (Severity::Warning, missing, name + " has no 'lanes'; assuming 1 server"@) || f == (
            Severity::Warning,
            "component.no_queue_area"@,
            "no queueArea bound; agents will queue in free space"@,
        ),
        ComponentType::SeatingBlock => f == (Severity::Error, missing, "seatingBlock requires 'rows' and 'cols'"@)
            || f == (
            Severity::Warning,
            missing,
            "seatingBlock has no seatPitchM/rowPitchM; defaults will be applied"@,
        ),
        ComponentType::Barricade | ComponentType::Stall => f == (
            Severity::Error,
            missing,
            name + " requires 'footprint'"@,
        ),
        ComponentType::Sign => f == (Severity::Error, missing, "sign requires 'headingDeg'"@),
    }
}

/// A component gets no finding that is not about its own type's
/// requirements or a zero lane count, and none twice.
pub proof fn lemma_requirements_report_nothing_else(t: ComponentType, p: ParamPresence, queue_area: bool)
    ensures
        forall|m: int|
            0 <= m < spec_requirement_findings(t, p, queue_area).len() ==> requirement_candidate(
                t,
                #[trigger] spec_requirement_findings(t, p, queue_area)[m],
            ),
        forall|m1: int, m2: int|
            0 <= m1 < m2 < spec_requirement_findings(t, p, queue_area).len() ==> #[trigger] spec_requirement_findings(
                t,
                p,
                queue_area,
            )[m1] != #[trigger] spec_requirement_findings(t, p, queue_area)[m2],
{
    reveal_strlit("component.missing_param");
    reveal_strlit("component.zero_lanes");
    reveal_strlit("component.no_queue_area");
    reveal_strlit("turnstile requires 'lanes'");
    reveal_strlit("turnstile requires 'serviceTime' or 'maxThroughputPph'");
    let fs = spec_requirement_findings(t, p, queue_area);
    let missing = "component.missing_param"@;
    let zcode = "component.zero_lanes"@;
    let qcode = "component.no_queue_area"@;
    assert(missing.len() == 23 && zcode.len() == 20 && qcode.len() == 23);
    assert(qcode[10] != missing[10]);
    assert(zcode != missing && qcode != missing && qcode != zcode);
    assert("turnstile requires 'lanes'"@ != "turnstile requires 'serviceTime' or 'maxThroughputPph'"@) by {
        assert("turnstile requires 'lanes'"@.len() == 26);
    }
    assert forall|m: int| 0 <= m < fs.len() implies requirement_candidate(t, #[trigger] fs[m]) by {
        let x = fs[m];
        assert(fs.contains(x));
        lemma_requirement_member(t, p, queue_area, x);
    }
    assert forall|m1: int, m2: int| 0 <= m1 < m2 < fs.len() implies #[trigger] fs[m1] != #[trigger] fs[m2] by {
        lemma_requirement_findings_distinct(t, p, queue_area, m1, m2);
    }
}

proof fn lemma_requirement_member(t: ComponentType, p: ParamPresence, queue_area: bool, x: Finding)
    requires
        spec_requirement_findings(t, p, queue_area).contains(x),
    ensures
        requirement_candidate(t, x),
{
    let missing = "component.missing_param"@;
    let name = spec_component_type_name(t);
    let z = finding_if(p.lanes == Some(0u32), Severity::Error, "component.zero_lanes"@, "lanes must be >= 1"@);
    lemma_finding_if_contains(p.lanes == Some(0u32), Severity::Error, "component.zero_lanes"@, "lanes must be >= 1"@, x);
    match t {
        ComponentType::Turnstile => {
            let f1 = finding_if(p.lanes is None, Severity::Error, missing, "turnstile requires 'lanes'"@);
            let f2 = finding_if(
                !p.service_time && !p.max_throughput,
                Severity::Error,
                missing,
                "turnstile requires 'serviceTime' or 'maxThroughputPph'"@,
            );
            lemma_concat_contains(z, f1 + f2, x);
            lemma_concat_contains(f1, f2, x);
            assert(spec_requirement_findings(t, p, queue_area) == z + (f1 + f2));
            lemma_finding_if_contains(p.lanes is None, Severity::Error, missing, "turnstile requires 'lanes'"@, x);
            lemma_finding_if_contains(
                !p.service_time && !p.max_throughput,
                Severity::Error,
                missing,
                "turnstile requires 'serviceTime' or 'maxThroughputPph'"@,
                x,
            );
        },
        ComponentType::SecurityCheckpoint
        | ComponentType::RegistrationDesk
        | ComponentType::TicketCounter => {
            let f1 = finding_if(!p.service_time, Severity::Error, missing, name + " requires 'serviceTime'"@);
            let f2 = finding_if(p.lanes is None, Severity::Warning, missing, name + " has no 'lanes'; assuming 1 server"@);
            let f3 = finding_if(
                !queue_area,
                Severity::Warning,
                "component.no_queue_area"@,
                "no queueArea bound; agents will queue in free space"@,
            );
            assert(spec_requirement_findings(t, p, queue_area) == z + (f1 + (f2 + f3)));
            lemma_concat_contains(z, f1 + (f2 + f3), x);
            lemma_concat_contains(f1, f2 + f3, x);
            lemma_concat_contains(f2, f3, x);
            lemma_finding_if_contains(!p.service_time, Severity::Error, missing, name + " requires 'serviceTime'"@, x);
            lemma_finding_if_contains(
                p.lanes is None,
                Severity::Warning,
                missing,
                name + " has no 'lanes'; assuming 1 server"@,
                x,
            );
            lemma_finding_if_contains(
                !queue_area,
                Severity::Warning,
                "component.no_queue_area"@,
                "no queueArea bound; agents will queue in free space"@,
                x,
            );
        },
        ComponentType::SeatingBlock => {
            let f1 = finding_if(!p.rows || !p.cols, Severity::Error, missing, "seatingBlock requires 'rows' and 'cols'"@);
            let f2 = finding_if(
                !p.seat_pitch || !p.row_pitch,
                Severity::Warning,
                missing,
                "seatingBlock has no seatPitchM/rowPitchM; defaults will be applied"@,
            );
            assert(spec_requirement_findings(t, p, queue_area) == z + (f1 + f2));
            lemma_concat_contains(z, f1 + f2, x);
            lemma_concat_contains(f1, f2, x);
            lemma_finding_if_contains(
                !p.rows || !p.cols,
                Severity::Error,
                missing,
                "seatingBlock requires 'rows' and 'cols'"@,
                x,
            );
            lemma_finding_if_contains(
                !p.seat_pitch || !p.row_pitch,
                Severity::Warning,
                missing,
                "seatingBlock has no seatPitchM/rowPitchM; defaults will be applied"@,
                x,
            );
        },
        ComponentType::Barricade | ComponentType::Stall => {
            let f1 = finding_if(!p.footprint, Severity::Error, missing, name + " requires 'footprint'"@);
            assert(spec_requirement_findings(t, p, queue_area) == z + f1);
            lemma_concat_contains(z, f1, x);
            lemma_finding_if_contains(!p.footprint, Severity::Error, missing, name + " requires 'footprint'"@, x);
        },
        ComponentType::Sign => {
            let f1 = finding_if(!p.heading, Severity::Error, missing, "sign requires 'headingDeg'"@);
            assert(spec_requirement_findings(t, p, queue_area) == z + f1);
            lemma_concat_contains(z, f1, x);
            lemma_finding_if_contains(!p.heading, Severity::Error, missing, "sign requires 'headingDeg'"@, x);
        },
    }
}

proof fn lemma_requirement_findings_distinct(t: ComponentType, p: ParamPresence, queue_area: bool, m1: int, m2: int)
    requires
        0 <= m1 < m2 < spec_requirement_findings(t, p, queue_area).len(),
    ensures
        spec_requirement_findings(t, p, queue_area)[m1] != spec_requirement_findings(t, p, queue_area)[m2],
{
    reveal_strlit("component.missing_param");
    reveal_strlit("component.zero_lanes");
    reveal_strlit("component.no_queue_area");
    reveal_strlit("turnstile requires 'lanes'");
    reveal_strlit("turnstile requires 'serviceTime' or 'maxThroughputPph'");
    let missing = "component.missing_param"@;
    let zcode = "component.zero_lanes"@;
    let qcode = "component.no_queue_area"@;
    assert(missing.len() == 23 && zcode.len() == 20 && qcode.len() == 23);
    assert(qcode[10] != missing[10]);
    assert("turnstile requires 'lanes'"@.len() == 26);
    let fs = spec_requirement_findings(t, p, queue_area);
    let name = spec_component_type_name(t);
    let z = finding_if(p.lanes == Some(0u32), Severity::Error, zcode, "lanes must be >= 1"@);
    match t {
        ComponentType::Turnstile => {
            let f1 = finding_if(p.lanes is None, Severity::Error, missing, "turnstile requires 'lanes'"@);
            let f2 = finding_if(
                !p.service_time && !p.max_throughput,
                Severity::Error,
                missing,
                "turnstile requires 'serviceTime' or 'maxThroughputPph'"@,
            );
            assert(fs == z + f1 + f2);
        },
        ComponentType::SecurityCheckpoint
        | ComponentType::RegistrationDesk
        | ComponentType::TicketCounter => {
            let f1 = finding_if(!p.service_time, Severity::Error, missing, name + " requires 'serviceTime'"@);
            let f2 = finding_if(p.lanes is None, Severity::Warning, missing, name + " has no 'lanes'; assuming 1 server"@);
            let f3 = finding_if(
                !queue_area,
                Severity::Warning,
                qcode,
                "no queueArea bound; agents will queue in free space"@,
            );
            assert(fs == z + f1 + f2 + f3);
            reveal_strlit(" requires 'serviceTime'");
            reveal_strlit(" has no 'lanes'; assuming 1 server");
            let s1 = " requires 'serviceTime'"@;
            let s2 = " has no 'lanes'; assuming 1 server"@;
            assert((name + s1).len() != (name + s2).len());
        },
        ComponentType::SeatingBlock => {
            let f1 = finding_if(!p.rows || !p.cols, Severity::Error, missing, "seatingBlock requires 'rows' and 'cols'"@);
            let f2 = finding_if(
                !p.seat_pitch || !p.row_pitch,
                Severity::Warning,
                missing,
                "seatingBlock has no seatPitchM/rowPitchM; defaults will be applied"@,
            );
            assert(fs == z + f1 + f2);
        },
        ComponentType::Barricade | ComponentType::Stall => {
            let f1 = finding_if(!p.footprint, Severity::Error, missing, name + " requires 'footprint'"@);
            assert(fs == z + f1);
        },
        ComponentType::Sign => {
            let f1 = finding_if(!p.heading, Severity::Error, missing, "sign requires 'headingDeg'"@);
            assert(fs == z + f1);
        },
    }
}

/// A finding addressed to an element: severity, code, element, message.
pub type Addressed = (Severity, Seq<char>, Seq<char>, Seq<char>);

/// The issues are the addressed findings, in order.
pub open spec fn addressed_match(issues: Seq<Issue>, fs: Seq<Addressed>) -> bool {
    &&& issues.len() == fs.len()
    &&& forall|k: int|
        0 <= k < issues.len() ==> {
            &&& (#[trigger] issues[k]).severity == fs[k].0
            &&& issues[k].code@ == fs[k].1
            &&& issues[k].element matches Some(e) && e@ == fs[k].2
            &&& issues[k].message@ == fs[k].3
        }
}

/// The addressed finding when `c` holds, otherwise nothing.
pub open spec fn addressed_if(c: bool, f: Addressed) -> Seq<Addressed> {
    if c {
        seq![f]
    } else {
        Seq::empty()
    }
}

fn push_addressed(
    out: &mut Vec<Issue>,
    Ghost(fs): Ghost<Seq<Addressed>>,
    c: bool,
    s: Severity,
    code: &str,
    element: &str,
    msg: String,
)
    requires
        addressed_match(old(out)@, fs),
    ensures
        addressed_match(final(out)@, fs + addressed_if(c, (s, code@, element@, msg@))),
{
    if c {
        out.push(Issue::new(s, code, Some(element.to_owned()), msg));
        proof {
            let f = fs + addressed_if(c, (s, code@, element@, msg@));
            assert forall|k: int| 0 <= k < out@.len() implies {
                &&& (#[trigger] out@[k]).severity == f[k].0
                &&& out@[k].code@ == f[k].1
                &&& out@[k].element matches Some(e) && e@ == f[k].2
                &&& out@[k].message@ == f[k].3
            } by {
                if k < fs.len() {
                    assert(out@[k] == old(out)@[k]);
                }
            }
        }
    } else {
        assert(fs + addressed_if(c, (s, code@, element@, msg@)) =~= fs);
    }
}

/// The message for a document whose schema version is not the expected one.
pub open spec fn spec_version_message(expected: Seq<char>, got: Seq<char>) -> Seq<char> {
    "expected schemaVersion '"@ + expected + "', got '"@ + got + "'"@
}

/// The error for a document whose schema version is not `expected`, addressed
/// to no element; `None` when it is.
pub fn version_issue(code: &str, expected: &str, got: &String) -> (r: Option<Issue>)
    ensures
        r is None <==> got@ == expected@,
        r matches Some(i) ==> {
            &&& i.severity == Severity::Error
            &&& i.code@ == code@
            &&& i.element is None
            &&& i.message@ == spec_version_message(expected@, got@)
        },
{
    let exp = String::from_str(expected);
    if *got == exp {
        return None;
    }
    let msg = String::from_str("expected schemaVersion '").concat(expected).concat("', got '").concat(
        got.as_str(),
    ).concat("'");
    Some(Issue::new(Severity::Error, code, None, msg))
}


/// The text `"<before>'<id>'<after>"`, as the reference findings quote ids.
pub open spec fn quoting(before: Seq<char>, id: Seq<char>, after: Seq<char>) -> Seq<char> {
    before + "'"@ + id + "'"@ + after
}

fn quote(before: &str, id: &str, after: &str) -> (r: String)
    ensures
        r@ == quoting(before@, id@, after@),
{
    String::from_str(before).concat("'").concat(id).concat("'").concat(after)
}

/// The ids of waypoints given as `(id, floor)`.
pub open spec fn waypoint_ids(wps: Seq<(String, String)>) -> Seq<String> {
    wps.map_values(|w: (String, String)| w.0)
}

/// Findings for the first `k` waypoints: each on an unknown floor.
pub open spec fn waypoint_findings(floors: Seq<String>, wps: Seq<(String, String)>, k: int) -> Seq<
    Addressed,
>
    decreases k,
{
    if k <= 0 {
        Seq::empty()
    } else {
        let w = wps[k - 1];
        waypoint_findings(floors, wps, k - 1) + addressed_if(
            !spec_contains_id(floors, w.1@),
            (
                Severity::Error,
                "waypoint.orphan_floor"@,
                w.0@,
                quoting("references unknown floor "@, w.1@, ""@),
            ),
        )
    }
}

/// Findings for the first `k` routing edges, given as `(from, to)`: an
/// unknown `from`, then an unknown `to`, each addressed to the id it names.
pub open spec fn edge_findings(wps: Seq<(String, String)>, edges: Seq<(String, String)>, k: int) -> Seq<
    Addressed,
>
    decreases k,
{
    if k <= 0 {
        Seq::empty()
    } else {
        let e = edges[k - 1];
        let ids = waypoint_ids(wps);
        edge_findings(wps, edges, k - 1) + addressed_if(
            !spec_contains_id(ids, e.0@),
            (
                Severity::Error,
                "edge.orphan_waypoint"@,
                e.0@,
                quoting("edge references unknown waypoint "@, e.0@, ""@),
            ),
        ) + addressed_if(
            !spec_contains_id(ids, e.1@),
            (
                Severity::Error,
                "edge.orphan_waypoint"@,
                e.1@,
                quoting("edge references unknown waypoint "@, e.1@, ""@),
            ),
        )
    }
}

/// The routing network's dangling references: waypoints on unknown floors,
/// then edges naming unknown waypoints.
pub open spec fn spec_routing_findings(
    floors: Seq<String>,
    wps: Seq<(String, String)>,
    edges: Seq<(String, String)>,
) -> Seq<Addressed> {
    waypoint_findings(floors, wps, wps.len() as int) + edge_findings(wps, edges, edges.len() as int)
}

/// The finding for waypoint `w`, given as `(id, floor)`, on an unknown floor.
pub open spec fn waypoint_floor_finding(w: (String, String)) -> Addressed {
    (Severity::Error, "waypoint.orphan_floor"@, w.0@, quoting("references unknown floor "@, w.1@, ""@))
}

/// The finding for a routing edge naming the unknown waypoint `x`.
pub open spec fn edge_end_finding(x: Seq<char>) -> Addressed {
    (Severity::Error, "edge.orphan_waypoint"@, x, quoting("edge references unknown waypoint "@, x, ""@))
}

/// `f` reports a waypoint whose floor is not among `floors`.
pub open spec fn reports_floorless_waypoint(floors: Seq<String>, wps: Seq<(String, String)>, f: Addressed) -> bool {
    exists|j: int|
        0 <= j < wps.len() && !spec_contains_id(floors, (#[trigger] wps[j]).1@) && f == waypoint_floor_finding(
            wps[j],
        )
}

/// `f` reports an end of a routing edge that names no waypoint.
pub open spec fn reports_dangling_edge_end(
    wps: Seq<(String, String)>,
    edges: Seq<(String, String)>,
    f: Addressed,
) -> bool {
    exists|j: int|
        0 <= j < edges.len() && {
            ||| (!spec_contains_id(waypoint_ids(wps), (#[trigger] edges[j]).0@) && f == edge_end_finding(
                edges[j].0@,
            ))
            ||| (!spec_contains_id(waypoint_ids(wps), edges[j].1@) && f == edge_end_finding(edges[j].1@))
        }
}

proof fn lemma_waypoint_findings_members(floors: Seq<String>, wps: Seq<(String, String)>, k: int)
    requires
        0 <= k <= wps.len(),
    ensures
        forall|j: int|
            0 <= j < k && !spec_contains_id(floors, (#[trigger] wps[j]).1@) ==> waypoint_findings(
                floors,
                wps,
                k,
            ).contains(waypoint_floor_finding(wps[j])),
        forall|m: int|
            0 <= m < waypoint_findings(floors, wps, k).len() ==> reports_floorless_waypoint(
                floors,
                wps,
                #[trigger] waypoint_findings(floors, wps, k)[m],
            ),
    decreases k,
{
    if k > 0 {
        lemma_waypoint_findings_members(floors, wps, k - 1);
        let prev = waypoint_findings(floors, wps, k - 1);
        let wk = wps[k - 1];
        let o = addressed_if(!spec_contains_id(floors, wk.1@), waypoint_floor_finding(wk));
        let cur = waypoint_findings(floors, wps, k);
        assert(cur == prev + o);
        assert forall|j: int| 0 <= j < k && !spec_contains_id(floors, (#[trigger] wps[j]).1@) implies cur.contains(
            waypoint_floor_finding(wps[j]),
        ) by {
            let x = waypoint_floor_finding(wps[j]);
            lemma_concat_contains(prev, o, x);
            lemma_addressed_if_contains(!spec_contains_id(floors, wk.1@), waypoint_floor_finding(wk), x);
        }
        assert forall|m: int| 0 <= m < cur.len() implies reports_floorless_waypoint(
            floors,
            wps,
            #[trigger] cur[m],
        ) by {
            if m < prev.len() {
                assert(cur[m] == prev[m]);
            } else {
                assert(cur[m] == o[m - prev.len()]);
                assert(wps[k - 1] == wk);
            }
        }
    }
}

proof fn lemma_edge_findings_members(wps: Seq<(String, String)>, edges: Seq<(String, String)>, k: int)
    requires
        0 <= k <= edges.len(),
    ensures
        forall|j: int|
            0 <= j < k && !spec_contains_id(waypoint_ids(wps), (#[trigger] edges[j]).0@) ==> edge_findings(
                wps,
                edges,
                k,
            ).contains(edge_end_finding(edges[j].0@)),
        forall|j: int|
            0 <= j < k && !spec_contains_id(waypoint_ids(wps), (#[trigger] edges[j]).1@) ==> edge_findings(
                wps,
                edges,
                k,
            ).contains(edge_end_finding(edges[j].1@)),
        forall|m: int|
            0 <= m < edge_findings(wps, edges, k).len() ==> reports_dangling_edge_end(
                wps,
                edges,
                #[trigger] edge_findings(wps, edges, k)[m],
            ),
    decreases k,
{
    if k > 0 {
        lemma_edge_findings_members(wps, edges, k - 1);
        let ids = waypoint_ids(wps);
        let prev = edge_findings(wps, edges, k - 1);
        let e = edges[k - 1];
        let f0 = addressed_if(!spec_contains_id(ids, e.0@), edge_end_finding(e.0@));
        let f1 = addressed_if(!spec_contains_id(ids, e.1@), edge_end_finding(e.1@));
        let cur = edge_findings(wps, edges, k);
        assert(cur == prev + f0 + f1);
        assert forall|j: int|
            0 <= j < k && !spec_contains_id(ids, (#[trigger] edges[j]).0@) implies cur.contains(
                edge_end_finding(edges[j].0@),
            ) by {
            let x = edge_end_finding(edges[j].0@);
            lemma_concat_contains(prev + f0, f1, x);
            lemma_concat_contains(prev, f0, x);
            lemma_addressed_if_contains(!spec_contains_id(ids, e.0@), edge_end_finding(e.0@), x);
        }
        assert forall|j: int|
            0 <= j < k && !spec_contains_id(ids, (#[trigger] edges[j]).1@) implies cur.contains(
                edge_end_finding(edges[j].1@),
            ) by {
            let x = edge_end_finding(edges[j].1@);
            lemma_concat_contains(prev + f0, f1, x);
            lemma_concat_contains(prev, f0, x);
            lemma_addressed_if_contains(!spec_contains_id(ids, e.1@), edge_end_finding(e.1@), x);
        }
        assert forall|m: int| 0 <= m < cur.len() implies reports_dangling_edge_end(
            wps,
            edges,
            #[trigger] cur[m],
        ) by {
            assert(edges[k - 1] == e);
            if m < prev.len() {
                assert(cur[m] == prev[m]);
            } else if m < prev.len() + f0.len() {
                assert(cur[m] == f0[m - prev.len()]);
            } else {
                assert(cur[m] == f1[m - prev.len() - f0.len()]);
            }
        }
    }
}

/// The routing findings say exactly what dangles: every waypoint on a floor
/// that is not in `floors` is reported, every end of an edge that names no
/// waypoint is reported, and every finding is one of these.
pub proof fn lemma_routing_findings_report_dangling(
    floors: Seq<String>,
    wps: Seq<(String, String)>,
    edges: Seq<(String, String)>,
)
    ensures
        ({
            let fs = spec_routing_findings(floors, wps, edges);
            let ids = wps.map_values(|w: (String, String)| w.0);
            &&& forall|j: int|
                0 <= j < wps.len() && !spec_contains_id(floors, (#[trigger] wps[j]).1@) ==> fs.contains(
                    waypoint_floor_finding(wps[j]),
                )
            &&& forall|j: int|
                0 <= j < edges.len() && !spec_contains_id(ids, (#[trigger] edges[j]).0@) ==> fs.contains(
                    edge_end_finding(edges[j].0@),
                )
            &&& forall|j: int|
                0 <= j < edges.len() && !spec_contains_id(ids, (#[trigger] edges[j]).1@) ==> fs.contains(
                    edge_end_finding(edges[j].1@),
                )
            &&& forall|m: int|
                0 <= m < fs.len() ==> reports_floorless_waypoint(floors, wps, #[trigger] fs[m])
                    || reports_dangling_edge_end(wps, edges, fs[m])
        }),
{
    let a = waypoint_findings(floors, wps, wps.len() as int);
    let b = edge_findings(wps, edges, edges.len() as int);
    let fs = spec_routing_findings(floors, wps, edges);
    assert(fs == a + b);
    lemma_waypoint_findings_members(floors, wps, wps.len() as int);
    lemma_edge_findings_members(wps, edges, edges.len() as int);
    assert forall|j: int| 0 <= j < wps.len() && !spec_contains_id(floors, (#[trigger] wps[j]).1@) implies fs.contains(
        waypoint_floor_finding(wps[j]),
    ) by {
        lemma_concat_contains(a, b, waypoint_floor_finding(wps[j]));
    }
    assert forall|j: int|
        0 <= j < edges.len() && !spec_contains_id(waypoint_ids(wps), (#[trigger] edges[j]).0@) implies fs.contains(
        edge_end_finding(edges[j].0@),
    ) by {
        lemma_concat_contains(a, b, edge_end_finding(edges[j].0@));
    }
    assert forall|j: int|
        0 <= j < edges.len() && !spec_contains_id(waypoint_ids(wps), (#[trigger] edges[j]).1@) implies fs.contains(
        edge_end_finding(edges[j].1@),
    ) by {
        lemma_concat_contains(a, b, edge_end_finding(edges[j].1@));
    }
    assert forall|m: int| 0 <= m < fs.len() implies reports_floorless_waypoint(floors, wps, #[trigger] fs[m])
        || reports_dangling_edge_end(wps, edges, fs[m]) by {
        if m < a.len() {
            assert(fs[m] == a[m]);
            assert(a[m] == waypoint_findings(floors, wps, wps.len() as int)[m]);
        } else {
            assert(fs[m] == b[m - a.len()]);
            assert(b[m - a.len()] == edge_findings(wps, edges, edges.len() as int)[m - a.len()]);
        }
    }
}

fn waypoint_known(wps: &Vec<(String, String)>, id: &String) -> (r: bool)
    ensures
        r == spec_contains_id(waypoint_ids(wps@), id@),
{
    let ghost ids = waypoint_ids(wps@);
    let mut j: usize = 0;
    while j < wps.len()
        invariant
            j <= wps@.len(),
            ids == waypoint_ids(wps@),
            forall|q: int| 0 <= q < j ==> (#[trigger] ids[q])@ != id@,
        decreases wps.len() - j,
    {
        if wps[j].0 == *id {
            assert(ids[j as int] == wps@[j as int].0);
            return true;
        }
        j += 1;
    }
    false
}

/// The errors for dangling references in the routing network: each waypoint
/// on a floor not in `floors`, then, edge by edge, an unknown `from` and an
/// unknown `to`. Waypoints are `(id, floor)`, edges `(from, to)`.
pub fn routing_issues(floors: &Vec<String>, waypoints: &Vec<(String, String)>, edges: &Vec<(String, String)>) -> (r: Vec<Issue>)
    ensures
        addressed_match(r@, spec_routing_findings(floors@, waypoints@, edges@)),
{
    let mut out: Vec<Issue> = Vec::new();
    let mut k: usize = 0;
    while k < waypoints.len()
        invariant
            k <= waypoints@.len(),
            addressed_match(out@, waypoint_findings(floors@, waypoints@, k as int)),
        decreases waypoints.len() - k,
    {
        let w = &waypoints[k];
        let known = contains_id(floors, &w.1);
        push_addressed(
            &mut out,
            Ghost(waypoint_findings(floors@, waypoints@, k as int)),
            !known,
            Severity::Error,
            "waypoint.orphan_floor",
            w.0.as_str(),
            quote("references unknown floor ", w.1.as_str(), ""),
        );
        k += 1;
    }
    let ghost head = waypoint_findings(floors@, waypoints@, waypoints@.len() as int);
    let mut j: usize = 0;
    while j < edges.len()
        invariant
            j <= edges@.len(),
            head == waypoint_findings(floors@, waypoints@, waypoints@.len() as int),
            addressed_match(out@, head + edge_findings(waypoints@, edges@, j as int)),
        decreases edges.len() - j,
    {
        let e = &edges[j];
        let ghost before = head + edge_findings(waypoints@, edges@, j as int);
        let from_known = waypoint_known(waypoints, &e.0);
        push_addressed(
            &mut out,
            Ghost(before),
            !from_known,
            Severity::Error,
            "edge.orphan_waypoint",
            e.0.as_str(),
            quote("edge references unknown waypoint ", e.0.as_str(), ""),
        );
        let ghost mid = before + addressed_if(
            !from_known,
            (
                Severity::Error,
                "edge.orphan_waypoint"@,
                e.0@,
                quoting("edge references unknown waypoint "@, e.0@, ""@),
            ),
        );
        let to_known = waypoint_known(waypoints, &e.1);
        push_addressed(
            &mut out,
            Ghost(mid),
            !to_known,
            Severity::Error,
            "edge.orphan_waypoint",
            e.1.as_str(),
            quote("edge references unknown waypoint ", e.1.as_str(), ""),
        );
        proof {
            let after = mid + addressed_if(
                !to_known,
                (
                    Severity::Error,
                    "edge.orphan_waypoint"@,
                    e.1@,
                    quoting("edge references unknown waypoint "@, e.1@, ""@),
                ),
            );
            assert(after =~= head + edge_findings(waypoints@, edges@, j + 1));
        }
        j += 1;
    }
    out
}


/// Findings for the first `k` ends of link `id`, each end given as the floor
/// it names and the number of points in its footprint: an unknown floor, then
/// a footprint of fewer than three points.
pub open spec fn end_findings(id: Seq<char>, floors: Seq<String>, ends: Seq<(String, usize)>, k: int) -> Seq<
    Addressed,
>
    decreases k,
{
    if k <= 0 {
        Seq::empty()
    } else {
        let e = ends[k - 1];
        end_findings(id, floors, ends, k - 1) + addressed_if(
            !spec_contains_id(floors, e.0@),
            (Severity::Error, "link.orphan_floor"@, id, quoting("references unknown floor "@, e.0@, ""@)),
        ) + addressed_if(
            e.1 < 3,
            (
                Severity::Error,
                "link.degenerate_footprint"@,
                id,
                quoting("footprint on floor "@, e.0@, " has < 3 points"@),
            ),
        )
    }
}

/// The findings on the ends of vertical link `id`: a count other than two,
/// then each end's floor and footprint, then both ends on one floor.
pub open spec fn spec_link_findings(id: Seq<char>, floors: Seq<String>, ends: Seq<(String, usize)>) -> Seq<
    Addressed,
> {
    addressed_if(
        ends.len() != 2,
        (
            Severity::Error,
            "link.bad_ends"@,
            id,
            "link must have exactly 2 ends, has "@ + spec_decimal(ends.len()),
        ),
    ) + end_findings(id, floors, ends, ends.len() as int) + addressed_if(
        ends.len() == 2 && ends[0].0@ == ends[1].0@,
        (Severity::Warning, "link.same_floor"@, id, "both ends are on the same floor"@),
    )
}

/// The findings on the ends of vertical link `id`, in order: a count other
/// than two, each end naming a floor not in `floors` or a footprint of fewer
/// than three points, and both ends on the same floor. Ends are
/// `(floor, footprint point count)`.
pub fn link_end_issues(id: &str, floors: &Vec<String>, ends: &Vec<(String, usize)>) -> (r: Vec<Issue>)
    ensures
        addressed_match(r@, spec_link_findings(id@, floors@, ends@)),
{
    let mut out: Vec<Issue> = Vec::new();
    let n = ends.len();
    let bad = n != 2;
    let msg = if bad {
        String::from_str("link must have exactly 2 ends, has ").concat(decimal(n).as_str())
    } else {
        String::new()
    };
    push_addressed(&mut out, Ghost(Seq::empty()), bad, Severity::Error, "link.bad_ends", id, msg);
    let ghost head = Seq::<Addressed>::empty() + addressed_if(
        n != 2,
        (
            Severity::Error,
            "link.bad_ends"@,
            id@,
            "link must have exactly 2 ends, has "@ + spec_decimal(n as nat),
        ),
    );
    let mut k: usize = 0;
    while k < n
        invariant
            n == ends@.len(),
            k <= n,
            addressed_match(out@, head + end_findings(id@, floors@, ends@, k as int)),
        decreases n - k,
    {
        let e = &ends[k];
        let ghost before = head + end_findings(id@, floors@, ends@, k as int);
        let known = contains_id(floors, &e.0);
        push_addressed(
            &mut out,
            Ghost(before),
            !known,
            Severity::Error,
            "link.orphan_floor",
            id,
            quote("references unknown floor ", e.0.as_str(), ""),
        );
        let ghost mid = before + addressed_if(
            !known,
            (Severity::Error, "link.orphan_floor"@, id@, quoting("references unknown floor "@, e.0@, ""@)),
        );
        push_addressed(
            &mut out,
            Ghost(mid),
            e.1 < 3,
            Severity::Error,
            "link.degenerate_footprint",
            id,
            quote("footprint on floor ", e.0.as_str(), " has < 3 points"),
        );
        proof {
            let after = mid + addressed_if(
                e.1 < 3,
                (
                    Severity::Error,
                    "link.degenerate_footprint"@,
                    id@,
                    quoting("footprint on floor "@, e.0@, " has < 3 points"@),
                ),
            );
            assert(after =~= head + end_findings(id@, floors@, ends@, k + 1));
        }
        k += 1;
    }
    let same = n == 2 && ends[0].0 == ends[1].0;
    let ghost body = head + end_findings(id@, floors@, ends@, n as int);
    push_addressed(
        &mut out,
        Ghost(body),
        same,
        Severity::Warning,
        "link.same_floor",
        id,
        "both ends are on the same floor".to_owned(),
    );
    proof {
        assert(body + addressed_if(
            same,
            (Severity::Warning, "link.same_floor"@, id@, "both ends are on the same floor"@),
        ) =~= spec_link_findings(id@, floors@, ends@));
    }
    out
}


/// The orphan-floor finding for link `id`'s end on floor `f`.
pub open spec fn orphan_floor_finding(id: Seq<char>, f: Seq<char>) -> Addressed {
    (Severity::Error, "link.orphan_floor"@, id, quoting("references unknown floor "@, f, ""@))
}

/// The short-footprint finding for link `id`'s end on floor `f`.
pub open spec fn short_footprint_finding(id: Seq<char>, f: Seq<char>) -> Addressed {
    (Severity::Error, "link.degenerate_footprint"@, id, quoting("footprint on floor "@, f, " has < 3 points"@))
}

/// `f` is the orphan-floor finding of an end of the link whose floor is
/// unknown.
pub open spec fn reports_unknown_floor_end(
    id: Seq<char>,
    floors: Seq<String>,
    ends: Seq<(String, usize)>,
    f: Addressed,
) -> bool {
    exists|j: int|
        0 <= j < ends.len() && !spec_contains_id(floors, (#[trigger] ends[j]).0@) && f
            == orphan_floor_finding(id, ends[j].0@)
}

/// `f` is the short-footprint finding of an end of the link whose footprint
/// has fewer than three points.
pub open spec fn reports_short_footprint_end(id: Seq<char>, ends: Seq<(String, usize)>, f: Addressed) -> bool {
    exists|j: int|
        0 <= j < ends.len() && (#[trigger] ends[j]).1 < 3 && f == short_footprint_finding(id, ends[j].0@)
}

proof fn lemma_addressed_if_contains(c: bool, f: Addressed, x: Addressed)
    ensures
        addressed_if(c, f).contains(x) <==> c && x == f,
{
    if c {
        assert(addressed_if(c, f)[0] == f);
    }
}

proof fn lemma_end_findings_members(id: Seq<char>, floors: Seq<String>, ends: Seq<(String, usize)>, k: int)
    requires
        0 <= k <= ends.len(),
    ensures
        forall|j: int|
            0 <= j < k && !spec_contains_id(floors, (#[trigger] ends[j]).0@) ==> end_findings(
                id,
                floors,
                ends,
                k,
            ).contains(orphan_floor_finding(id, ends[j].0@)),
        forall|j: int|
            0 <= j < k && (#[trigger] ends[j]).1 < 3 ==> end_findings(id, floors, ends, k).contains(
                short_footprint_finding(id, ends[j].0@),
            ),
        forall|m: int|
            0 <= m < end_findings(id, floors, ends, k).len() ==> reports_unknown_floor_end(
                id,
                floors,
                ends,
                #[trigger] end_findings(id, floors, ends, k)[m],
            ) || reports_short_footprint_end(id, ends, end_findings(id, floors, ends, k)[m]),
    decreases k,
{
    if k > 0 {
        lemma_end_findings_members(id, floors, ends, k - 1);
        let prev = end_findings(id, floors, ends, k - 1);
        let e = ends[k - 1];
        let o = addressed_if(!spec_contains_id(floors, e.0@), orphan_floor_finding(id, e.0@));
        let d = addressed_if(e.1 < 3, short_footprint_finding(id, e.0@));
        let cur = end_findings(id, floors, ends, k);
        assert(cur == prev + o + d);
        assert forall|j: int|
            0 <= j < k && !spec_contains_id(floors, (#[trigger] ends[j]).0@) implies cur.contains(
                orphan_floor_finding(id, ends[j].0@),
            ) by {
            let x = orphan_floor_finding(id, ends[j].0@);
            lemma_concat_contains(prev + o, d, x);
            lemma_concat_contains(prev, o, x);
            lemma_addressed_if_contains(!spec_contains_id(floors, e.0@), orphan_floor_finding(id, e.0@), x);
        }
        assert forall|j: int| 0 <= j < k && (#[trigger] ends[j]).1 < 3 implies cur.contains(
            short_footprint_finding(id, ends[j].0@),
        ) by {
            let x = short_footprint_finding(id, ends[j].0@);
            lemma_concat_contains(prev + o, d, x);
            lemma_concat_contains(prev, o, x);
            lemma_addressed_if_contains(e.1 < 3, short_footprint_finding(id, e.0@), x);
        }
        assert forall|m: int| 0 <= m < cur.len() implies reports_unknown_floor_end(
            id,
            floors,
            ends,
            #[trigger] cur[m],
        ) || reports_short_footprint_end(id, ends, cur[m]) by {
            if m < prev.len() {
                assert(cur[m] == prev[m]);
            } else if m < prev.len() + o.len() {
                assert(cur[m] == o[m - prev.len()]);
                assert(ends[k - 1] == e);
            } else {
                assert(cur[m] == d[m - prev.len() - o.len()]);
                assert(ends[k - 1] == e);
            }
        }
    }
}

proof fn lemma_end_finding_codes(id: Seq<char>, floors: Seq<String>, ends: Seq<(String, usize)>, f: Addressed)
    requires
        reports_unknown_floor_end(id, floors, ends, f) || reports_short_footprint_end(id, ends, f),
    ensures
        f.1 == "link.orphan_floor"@ || f.1 == "link.degenerate_footprint"@,
        f.1 == "link.orphan_floor"@ ==> reports_unknown_floor_end(id, floors, ends, f),
        f.1 == "link.degenerate_footprint"@ ==> reports_short_footprint_end(id, ends, f),
{
    reveal_strlit("link.orphan_floor");
    reveal_strlit("link.degenerate_footprint");
    if reports_unknown_floor_end(id, floors, ends, f) {
        let j = choose|j: int|
            0 <= j < ends.len() && !spec_contains_id(floors, (#[trigger] ends[j]).0@) && f
                == orphan_floor_finding(id, ends[j].0@);
        assert(f.1 == "link.orphan_floor"@);
    } else {
        let j = choose|j: int|
            0 <= j < ends.len() && (#[trigger] ends[j]).1 < 3 && f == short_footprint_finding(id, ends[j].0@);
        assert(f.1 == "link.degenerate_footprint"@);
    }
}

/// The wrong-count finding for link `id` with `n` ends.
pub open spec fn bad_ends_finding(id: Seq<char>, n: nat) -> Addressed {
    (Severity::Error, "link.bad_ends"@, id, "link must have exactly 2 ends, has "@ + spec_decimal(n))
}

/// The warning for link `id` whose two ends are on one floor.
pub open spec fn same_floor_finding(id: Seq<char>) -> Addressed {
    (Severity::Warning, "link.same_floor"@, id, "both ends are on the same floor"@)
}

/// `f` is a finding the ends of the link call for: the wrong count, an end on
/// an unknown floor, a short footprint, or two ends on one floor.
pub open spec fn link_finding_explained(
    id: Seq<char>,
    floors: Seq<String>,
    ends: Seq<(String, usize)>,
    f: Addressed,
) -> bool {
    ||| (ends.len() != 2 && f == bad_ends_finding(id, ends.len()))
    ||| reports_unknown_floor_end(id, floors, ends, f)
    ||| reports_short_footprint_end(id, ends, f)
    ||| (ends.len() == 2 && ends[0].0@ == ends[1].0@ && f == same_floor_finding(id))
}

proof fn lemma_link_findings_explained(id: Seq<char>, floors: Seq<String>, ends: Seq<(String, usize)>)
    ensures
        forall|m: int|
            0 <= m < spec_link_findings(id, floors, ends).len() ==> link_finding_explained(
                id,
                floors,
                ends,
                #[trigger] spec_link_findings(id, floors, ends)[m],
            ),
        ends.len() != 2 ==> spec_link_findings(id, floors, ends)[0] == bad_ends_finding(id, ends.len()),
        forall|j: int|
            0 <= j < ends.len() && !spec_contains_id(floors, (#[trigger] ends[j]).0@) ==> spec_link_findings(
                id,
                floors,
                ends,
            ).contains(orphan_floor_finding(id, ends[j].0@)),
        forall|j: int|
            0 <= j < ends.len() && (#[trigger] ends[j]).1 < 3 ==> spec_link_findings(
                id,
                floors,
                ends,
            ).contains(short_footprint_finding(id, ends[j].0@)),
        (ends.len() == 2 && ends[0].0@ == ends[1].0@) ==> spec_link_findings(id, floors, ends).contains(
            same_floor_finding(id),
        ),
{
    let n = ends.len();
    let bad = bad_ends_finding(id, n);
    let same = same_floor_finding(id);
    let a = addressed_if(n != 2, bad);
    let e = end_findings(id, floors, ends, n as int);
    let sf = addressed_if(n == 2 && ends[0].0@ == ends[1].0@, same);
    let fs = spec_link_findings(id, floors, ends);
    assert(fs == a + e + sf);
    lemma_end_findings_members(id, floors, ends, n as int);
    assert forall|m: int| 0 <= m < fs.len() implies link_finding_explained(
        id,
        floors,
        ends,
        #[trigger] fs[m],
    ) by {
        if m < a.len() {
            assert(fs[m] == bad);
        } else if m < a.len() + e.len() {
            assert(fs[m] == e[m - a.len()]);
            assert(e[m - a.len()] == end_findings(id, floors, ends, n as int)[m - a.len()]);
        } else {
            assert(fs[m] == sf[m - a.len() - e.len()]);
        }
    }
    if n != 2 {
        assert(fs[0] == bad);
    }
    assert forall|j: int| 0 <= j < n && !spec_contains_id(floors, (#[trigger] ends[j]).0@) implies fs.contains(
        orphan_floor_finding(id, ends[j].0@),
    ) by {
        let x = orphan_floor_finding(id, ends[j].0@);
        lemma_concat_contains(a + e, sf, x);
        lemma_concat_contains(a, e, x);
    }
    assert forall|j: int| 0 <= j < n && (#[trigger] ends[j]).1 < 3 implies fs.contains(
        short_footprint_finding(id, ends[j].0@),
    ) by {
        let x = short_footprint_finding(id, ends[j].0@);
        lemma_concat_contains(a + e, sf, x);
        lemma_concat_contains(a, e, x);
    }
    if n == 2 && ends[0].0@ == ends[1].0@ {
        lemma_concat_contains(a + e, sf, same);
        lemma_addressed_if_contains(true, same, same);
    }
}

proof fn lemma_explained_by_code(id: Seq<char>, floors: Seq<String>, ends: Seq<(String, usize)>, f: Addressed)
    requires
        link_finding_explained(id, floors, ends, f),
    ensures
        f.1 == "link.bad_ends"@ ==> ends.len() != 2,
        f.1 == "link.orphan_floor"@ ==> reports_unknown_floor_end(id, floors, ends, f),
        f.1 == "link.degenerate_footprint"@ ==> reports_short_footprint_end(id, ends, f),
        f == same_floor_finding(id) ==> ends.len() == 2 && ends[0].0@ == ends[1].0@,
{
    reveal_strlit("link.bad_ends");
    reveal_strlit("link.orphan_floor");
    reveal_strlit("link.degenerate_footprint");
    reveal_strlit("link.same_floor");
    assert("link.bad_ends"@.len() == 13);
    assert("link.same_floor"@.len() == 15);
    assert("link.orphan_floor"@.len() == 17);
    assert("link.degenerate_footprint"@.len() == 25);
    if reports_unknown_floor_end(id, floors, ends, f) || reports_short_footprint_end(id, ends, f) {
        lemma_end_finding_codes(id, floors, ends, f);
        assert(f.1.len() == 17 || f.1.len() == 25);
    } else if ends.len() != 2 && f == bad_ends_finding(id, ends.len()) {
        assert(f.1.len() == 13);
    } else {
        assert(f.1.len() == 15);
    }
}

/// The findings on a vertical link's ends say exactly what is wrong with
/// them: a wrong end count is reported exactly when there are not two ends,
/// first, with the count in decimal; every end on an unknown floor and every
/// footprint of fewer than three points is reported, and every such report is
/// about one of the ends; the same-floor warning comes exactly when there are
/// two ends on one floor.
pub proof fn lemma_link_findings_report_bad_ends(id: Seq<char>, floors: Seq<String>, ends: Seq<(String, usize)>)
    ensures
        ({
            let fs = spec_link_findings(id, floors, ends);
            &&& (exists|m: int| 0 <= m < fs.len() && (#[trigger] fs[m]).1 == "link.bad_ends"@) <==> ends.len()
                != 2
            &&& ends.len() != 2 ==> fs[0] == (
                Severity::Error,
                "link.bad_ends"@,
                id,
                "link must have exactly 2 ends, has "@ + spec_decimal(ends.len()),
            )
            &&& forall|j: int|
                0 <= j < ends.len() && !spec_contains_id(floors, (#[trigger] ends[j]).0@) ==> fs.contains(
                    orphan_floor_finding(id, ends[j].0@),
                )
            &&& forall|j: int|
                0 <= j < ends.len() && (#[trigger] ends[j]).1 < 3 ==> fs.contains(
                    short_footprint_finding(id, ends[j].0@),
                )
            &&& forall|m: int|
                0 <= m < fs.len() && (#[trigger] fs[m]).1 == "link.orphan_floor"@
                    ==> reports_unknown_floor_end(id, floors, ends, fs[m])
            &&& forall|m: int|
                0 <= m < fs.len() && (#[trigger] fs[m]).1 == "link.degenerate_footprint"@
                    ==> reports_short_footprint_end(id, ends, fs[m])
            &&& fs.contains((Severity::Warning, "link.same_floor"@, id, "both ends are on the same floor"@))
                <==> (ends.len() == 2 && ends[0].0@ == ends[1].0@)
        }),
{
    let fs = spec_link_findings(id, floors, ends);
    lemma_link_findings_explained(id, floors, ends);
    if ends.len() != 2 {
        assert(fs[0].1 == "link.bad_ends"@);
    }
    if exists|m: int| 0 <= m < fs.len() && (#[trigger] fs[m]).1 == "link.bad_ends"@ {
        let m = choose|m: int| 0 <= m < fs.len() && (#[trigger] fs[m]).1 == "link.bad_ends"@;
        lemma_explained_by_code(id, floors, ends, fs[m]);
    }
    assert forall|m: int| 0 <= m < fs.len() && (#[trigger] fs[m]).1 == "link.orphan_floor"@ implies reports_unknown_floor_end(
        id,
        floors,
        ends,
        fs[m],
    ) by {
        lemma_explained_by_code(id, floors, ends, fs[m]);
    }
    assert forall|m: int|
        0 <= m < fs.len() && (#[trigger] fs[m]).1 == "link.degenerate_footprint"@ implies reports_short_footprint_end(
        id,
        ends,
        fs[m],
    ) by {
        lemma_explained_by_code(id, floors, ends, fs[m]);
    }
    if fs.contains(same_floor_finding(id)) {
        let m = choose|m: int| 0 <= m < fs.len() && fs[m] == same_floor_finding(id);
        lemma_explained_by_code(id, floors, ends, fs[m]);
    }
}

/// Findings for the first `k` zones of a preplaced arrival of population
/// `pid`: each zone the venue does not have.
pub open spec fn preplaced_zone_findings(pid: Seq<char>, zones: Seq<String>, known: Seq<String>, k: int) -> Seq<
    Addressed,
>
    decreases k,
{
    if k <= 0 {
        Seq::empty()
    } else {
        preplaced_zone_findings(pid, zones, known, k - 1) + addressed_if(
            !spec_contains_id(known, zones[k - 1]@),
            (
                Severity::Error,
                "arrival.orphan_zone"@,
                pid,
                quoting("references unknown zone "@, zones[k - 1]@, ""@),
            ),
        )
    }
}

/// The findings on a preplaced arrival of population `pid`: no zones at all,
/// then each zone the venue does not have.
pub open spec fn spec_preplaced_findings(pid: Seq<char>, zones: Seq<String>, known: Seq<String>) -> Seq<
    Addressed,
> {
    addressed_if(
        zones.len() == 0,
        (Severity::Error, "arrival.no_zones"@, pid, "preplaced arrival has no zones"@),
    ) + preplaced_zone_findings(pid, zones, known, zones.len() as int)
}

/// The errors on a preplaced arrival of population `pid`, in order: no zones
/// at all, then each zone not among `known`.
pub fn preplaced_issues(pid: &str, zones: &Vec<String>, known: &Vec<String>) -> (r: Vec<Issue>)
    ensures
        addressed_match(r@, spec_preplaced_findings(pid@, zones@, known@)),
{
    let mut out: Vec<Issue> = Vec::new();
    push_addressed(
        &mut out,
        Ghost(Seq::empty()),
        zones.len() == 0,
        Severity::Error,
        "arrival.no_zones",
        pid,
        "preplaced arrival has no zones".to_owned(),
    );
    let ghost head = Seq::<Addressed>::empty() + addressed_if(
        zones@.len() == 0,
        (Severity::Error, "arrival.no_zones"@, pid@, "preplaced arrival has no zones"@),
    );
    let mut k: usize = 0;
    while k < zones.len()
        invariant
            k <= zones@.len(),
            addressed_match(out@, head + preplaced_zone_findings(pid@, zones@, known@, k as int)),
        decreases zones.len() - k,
    {
        let ghost before = head + preplaced_zone_findings(pid@, zones@, known@, k as int);
        let z = &zones[k];
        let ok = contains_id(known, z);
        push_addressed(
            &mut out,
            Ghost(before),
            !ok,
            Severity::Error,
            "arrival.orphan_zone",
            pid,
            quote("references unknown zone ", z.as_str(), ""),
        );
        proof {
            let after = before + addressed_if(
                !ok,
                (
                    Severity::Error,
                    "arrival.orphan_zone"@,
                    pid@,
                    quoting("references unknown zone "@, z@, ""@),
                ),
            );
            assert(after =~= head + preplaced_zone_findings(pid@, zones@, known@, k + 1));
        }
        k += 1;
    }
    assert(head + preplaced_zone_findings(pid@, zones@, known@, zones@.len() as int)
        =~= spec_preplaced_findings(pid@, zones@, known@));
    out
}


/// The finding for element `elem` whose reference `id` is not among `known`:
/// `prefix` followed by the quoted id, with the given severity and code;
/// `None` when the reference resolves.
pub fn reference_issue(
    severity: Severity,
    code: &str,
    elem: &str,
    prefix: &str,
    id: &String,
    known: &Vec<String>,
) -> (r: Option<Issue>)
    ensures
        r is None <==> spec_contains_id(known@, id@),
        r matches Some(i) ==> {
            &&& i.severity == severity
            &&& i.code@ == code@
            &&& i.element matches Some(e) && e@ == elem@
            &&& i.message@ == quoting(prefix@, id@, ""@)
        },
{
    if contains_id(known, id) {
        None
    } else {
        Some(Issue::new(severity, code, Some(elem.to_owned()), quote(prefix, id.as_str(), "")))
    }
}

} // verus!
