//! Alerts of CrowdSec: asking for them, and putting them into words.

use crate::error::Failure;
use crate::json::{
    bool_of, field_of, items_view, json_text, lemma_json_view, number_text, signed_of, Json,
    JsonView,
};
use crate::process::{lossy, lossy_text};
use crate::text;
use vstd::prelude::*;

verus! {

/// The most characters of a text that is taken from an alert.
pub const MAX_TEXT: usize = 512;

/// An alert.
pub struct CrowdSecAlert {
    pub id: String,
    pub created_at: String,
    pub scenario: String,
    pub message: String,
    pub source_scope: String,
    pub source_value: String,
    pub source_ip: String,
    pub source_country: String,
    pub source_as_name: String,
    pub events_count: i32,
    pub simulated: bool,
    pub remediation: bool,
    pub decision_type: String,
    pub decision_duration: String,
}

/// What is answered of alerts.
pub struct CrowdSecAlertsResponse {
    pub enabled: bool,
    pub supported: bool,
    pub status: String,
    pub error_message: String,
    pub collected_at: String,
    pub alerts: Vec<CrowdSecAlert>,
}

/// Whether alerts are asked for: by a setting that says so, or by the configuration.
pub fn crowdsec_enabled(setting: Option<&str>, configured: bool) -> (r: bool)
    ensures
        r == match setting {
            Some(s) => if s@ == "true"@ {
                true
            } else if s@ == "false"@ {
                false
            } else {
                configured
            },
            None => configured,
        },
{
    match setting {
        Some(s) => if text::same(s, "true") {
            true
        } else if text::same(s, "false") {
            false
        } else {
            configured
        },
        None => configured,
    }
}

/// How many alerts are asked for: by a setting that is a number, or by the configuration, but at
/// least 1 and at most 500.
pub fn maximum_alerts(setting: Option<&str>, configured: usize) -> (r: usize)
    ensures
        ({
            let wanted = match setting {
                Some(s) => match text::parsed(s@) {
                    Some(n) => if n <= usize::MAX {
                        n as usize
                    } else {
                        configured
                    },
                    None => configured,
                },
                None => configured,
            };
            r == if wanted < 1 {
                1usize
            } else if wanted > 500 {
                500usize
            } else {
                wanted
            }
        }),
{
    let wanted: usize = match setting {
        Some(s) => match text::parse_number(s, usize::MAX as u64) {
            Some(n) => n as usize,
            None => configured,
        },
        None => configured,
    };
    if wanted < 1 {
        1
    } else if wanted > 500 {
        500
    } else {
        wanted
    }
}

/// The programs to ask, in order.
pub open spec fn candidates(cli: Seq<char>) -> Seq<Seq<char>> {
    let name = text::trimmed(cli);
    if name.len() == 0 {
        Seq::empty()
    } else if name == "cscli"@ {
        seq!["cscli"@, "/usr/bin/cscli"@, "/usr/local/bin/cscli"@, "/snap/bin/cscli"@]
    } else {
        seq![name]
    }
}

/// The programs to ask, in order: the configured one, and the usual places where only the usual
/// name is configured.
pub fn cscli_candidates(cli: &str) -> (r: Vec<String>)
    ensures
        text::views(r@) == candidates(cli@),
{
    let name = text::trim(cli);
    if text::is_empty(name.as_str()) {
        let r: Vec<String> = Vec::new();
        assert(text::views(r@) =~= candidates(cli@));
        return r;
    }
    if !text::same(name.as_str(), "cscli") {
        let r: Vec<String> = vec![name];
        assert(text::views(r@) =~= candidates(cli@));
        return r;
    }
    let list: Vec<&str> = vec![
        "cscli",
        "/usr/bin/cscli",
        "/usr/local/bin/cscli",
        "/snap/bin/cscli",
    ];
    let r = text::owned(list);
    assert(text::views(r@) =~= candidates(cli@));
    r
}

/// The arguments with which alerts are asked for.
pub fn alert_arguments(maximum: usize) -> (r: Vec<String>)
    ensures
        text::views(r@) == seq![
            "alerts"@,
            "list"@,
            "-o"@,
            "json"@,
            "--limit"@,
            text::decimal(maximum as nat),
        ],
{
    let limit = text::decimal_string(maximum as u64);
    let list: Vec<&str> = vec!["alerts", "list", "-o", "json", "--limit", limit.as_str()];
    let r = text::owned(list);
    assert(text::views(r@) =~= seq![
        "alerts"@,
        "list"@,
        "-o"@,
        "json"@,
        "--limit"@,
        text::decimal(maximum as nat),
    ]);
    r
}

/// What a program that was asked printed. One that failed is refused with what it said.
pub fn candidate_outcome(
    program: &str,
    success: bool,
    code: Option<i32>,
    stdout: &[u8],
    stderr: &[u8],
) -> (r: Result<String, Failure>)
    ensures
        r is Ok <==> success,
        r is Ok ==> r->Ok_0@ == lossy(stdout@),
        r is Err ==> r->Err_0.message@ == program@ + " exited with "@ + text::signed_decimal(
            match code {
                Some(n) => n as int,
                None => -1,
            },
        ) + ": "@ + text::trimmed(lossy(stderr@)),
{
    if success {
        return Ok(lossy_text(stdout));
    }
    let n: i64 = match code {
        Some(n) => n as i64,
        None => -1,
    };
    let number = text::signed_decimal_string(n);
    let said = lossy_text(stderr);
    let said = text::trim(said.as_str());
    Err(
        Failure {
            message: text::concat5(
                program,
                " exited with ",
                number.as_str(),
                ": ",
                said.as_str(),
            ),
        },
    )
}

/// What asking for alerts does next.
pub enum QueryStep {
    /// Asks a program; those behind it are asked where it fails.
    Ask(String, Vec<String>),
    /// A program answered.
    Answered(String),
    /// No program did.
    Failed(Failure),
}

/// A step of asking for alerts, by its contents.
#[verifier::ext_equal]
pub ghost enum QueryView {
    Ask(Seq<char>, Seq<Seq<char>>),
    Answered(Seq<char>),
    Failed(Seq<char>),
}

impl View for QueryStep {
    type V = QueryView;

    open spec fn view(&self) -> QueryView {
        match self {
            QueryStep::Ask(program, left) => QueryView::Ask(program@, text::views(left@)),
            QueryStep::Answered(raw) => QueryView::Answered(raw@),
            QueryStep::Failed(e) => QueryView::Failed(e.message@),
        }
    }
}

/// Asking the programs that are left, where the last one failed so: the first of them, or none.
pub open spec fn asking(left: Seq<Seq<char>>, last: Option<Seq<char>>) -> QueryView {
    if left.len() > 0 {
        QueryView::Ask(left[0], left.skip(1))
    } else {
        QueryView::Failed(
            match last {
                Some(m) => m,
                None => "cscli path is empty"@,
            },
        )
    }
}

/// What follows the answer of a program.
pub open spec fn asked(step: QueryView, answer: Result<Seq<char>, Seq<char>>) -> QueryView {
    match step {
        QueryView::Ask(_, left) => match answer {
            Ok(raw) => QueryView::Answered(raw),
            Err(m) => asking(left, Some(m)),
        },
        other => other,
    }
}

/// An answer by its contents.
pub open spec fn answer_view(answer: Result<String, Failure>) -> Result<Seq<char>, Seq<char>> {
    match answer {
        Ok(raw) => Ok(raw@),
        Err(e) => Err(e.message@),
    }
}

fn ask(left: Vec<String>, last: Option<Failure>) -> (r: QueryStep)
    ensures
        r@ == asking(
            text::views(left@),
            match last {
                Some(e) => Some(e.message@),
                None => None,
            },
        ),
{
    let ghost all = text::views(left@);
    if left.len() > 0 {
        let mut left = left;
        let program = left.remove(0);
        proof {
            assert(all[0] == program@);
            assert(text::views(left@) =~= all.skip(1));
        }
        QueryStep::Ask(program, left)
    } else {
        match last {
            Some(e) => QueryStep::Failed(e),
            None => QueryStep::Failed(Failure::new("cscli path is empty")),
        }
    }
}

impl QueryStep {
    /// Begins to ask for alerts, by the program that is configured.
    pub fn first(cli: &str) -> (r: QueryStep)
        ensures
            r@ == asking(candidates(cli@), None),
    {
        ask(cscli_candidates(cli), None)
    }

    /// What follows the answer of a program: the first answer counts, and where none comes, the
    /// last failure.
    pub fn after(self, answer: Result<String, Failure>) -> (r: QueryStep)
        ensures
            r@ == asked(self@, answer_view(answer)),
    {
        match self {
            QueryStep::Ask(_, left) => match answer {
                Ok(raw) => QueryStep::Answered(raw),
                Err(e) => ask(left, Some(e)),
            },
            other => other,
        }
    }
}

/// An answer without alerts.
pub fn response(enabled: bool, supported: bool, status: &str, error: &str, collected_at: &str) -> (r:
    CrowdSecAlertsResponse)
    ensures
        r.enabled == enabled,
        r.supported == supported,
        r.status@ == status@,
        r.error_message@ == error@,
        r.collected_at@ == collected_at@,
        r.alerts@.len() == 0,
{
    CrowdSecAlertsResponse {
        enabled,
        supported,
        status: status.to_owned(),
        error_message: error.to_owned(),
        collected_at: collected_at.to_owned(),
        alerts: Vec::new(),
    }
}

/// What is answered where alerts are not asked for: because they are not wanted, or because the
/// system has none. None where they are asked for.
pub fn unasked(enabled: bool, linux: bool, collected_at: &str) -> (r: Option<
    CrowdSecAlertsResponse,
>)
    ensures
        r is None <==> enabled && linux,
        r is Some ==> {
            let answer = r->0;
            &&& answer.enabled == enabled
            &&& answer.supported == linux
            &&& answer.status@ == if enabled {
                "unsupported"@
            } else {
                "disabled"@
            }
            &&& answer.error_message@ == if enabled {
                "CrowdSec telemetry is only supported on Linux"@
            } else {
                ""@
            }
            &&& answer.collected_at@ == collected_at@
            &&& answer.alerts@.len() == 0
        },
{
    if !enabled {
        Some(response(false, linux, "disabled", "", collected_at))
    } else if !linux {
        Some(
            response(
                true,
                false,
                "unsupported",
                "CrowdSec telemetry is only supported on Linux",
                collected_at,
            ),
        )
    } else {
        None
    }
}

/// The document that was printed; an empty list where nothing was.
pub open spec fn printed(raw: Seq<char>) -> Option<JsonView> {
    json_text(
        vstd::utf8::encode_utf8(
            if text::is_blank(raw) {
                "[]"@
            } else {
                raw
            },
        ),
    )
}

/// The alerts that a document holds: it is a list of them, or holds one.
pub open spec fn alerts_in(v: JsonView) -> Seq<JsonView> {
    match v {
        JsonView::Array(items) => items,
        _ => match field_of(v, "alerts"@) {
            Some(JsonView::Array(items)) => items,
            _ => Seq::empty(),
        },
    }
}

/// The first items of a sequence.
pub open spec fn first_of<T>(s: Seq<T>, n: int) -> Seq<T> {
    if n >= s.len() {
        s
    } else {
        s.take(n)
    }
}

/// The first alerts that were printed.
pub fn parse_alerts(raw: &str, maximum: usize) -> (r: Result<Vec<Json>, Failure>)
    ensures
        match printed(raw@) {
            Some(v) => r is Ok && items_view(r->Ok_0@) == first_of(alerts_in(v), maximum as int),
            None => r is Err && r->Err_0.message@ == "parse CrowdSec JSON"@,
        },
{
    let bytes = text::bytes_of(
        if text::blank(raw) {
            "[]"
        } else {
            raw
        },
    );
    match Json::parse(bytes.as_slice()) {
        Some(v) => Ok(alerts_of(&v, maximum)),
        None => Err(Failure::new("parse CrowdSec JSON")),
    }
}

/// The first alerts that a document holds.
pub fn alerts_of(value: &Json, maximum: usize) -> (r: Vec<Json>)
    ensures
        items_view(r@) == first_of(alerts_in(value@), maximum as int),
{
    broadcast use lemma_json_view;

    let empty: Vec<Json> = Vec::new();
    let items: &Vec<Json> = match value {
        Json::Array(items) => items,
        _ => match value.field("alerts") {
            Some(Json::Array(items)) => items,
            _ => {
                assert(items_view(empty@) =~= alerts_in(value@));
                &empty
            },
        },
    };
    let ghost all = alerts_in(value@);
    assert(items_view(items@) =~= all);
    let mut out: Vec<Json> = Vec::new();
    let mut i: usize = 0;
    assert(items_view(out@) =~= all.take(0));
    while i < items.len() && i < maximum
        invariant
            items_view(items@) == all,
            0 <= i <= items@.len(),
            i <= maximum,
            items_view(out@) == all.take(i as int),
        decreases items.len() - i,
    {
        broadcast use lemma_json_view;

        let item = items[i].copy();
        let ghost before = out@;
        assert(all[i as int] == items@[i as int]@);
        out.push(item);
        assert(items_view(out@) =~= items_view(before).push(item@));
        assert(all.take(i + 1) =~= all.take(i as int).push(all[i as int]));
        i += 1;
    }
    assert(all.take(all.len() as int) =~= all);
    out
}

/// The text of a field that is a text or a number.
pub open spec fn worded(v: Option<JsonView>) -> Option<Seq<char>> {
    match v {
        Some(JsonView::Text(s)) => Some(s),
        Some(JsonView::Number(n)) => Some(number_text(n)),
        _ => None,
    }
}

/// The text of the first of two fields that has one, cut to what is taken; empty where neither
/// has one.
pub open spec fn text_in(v: JsonView, name: Seq<char>, other: Seq<char>) -> Seq<char> {
    let whole = match worded(field_of(v, name)) {
        Some(s) => s,
        None => match worded(field_of(v, other)) {
            Some(s) => s,
            None => Seq::empty(),
        },
    };
    first_of(whole, MAX_TEXT as int)
}

fn word(value: &Json, name: &str) -> (r: Option<String>)
    ensures
        text::opt_view(r) == worded(field_of(value@, name@)),
{
    broadcast use lemma_json_view;

    match value.field(name) {
        Some(Json::Text(s)) => Some(s.as_str().to_owned()),
        Some(field) => field.number(),
        None => None,
    }
}

/// The text of the first of two fields that has one, cut to what is taken.
fn text_field(value: &Json, name: &str, other: &str) -> (r: String)
    ensures
        r@ == text_in(value@, name@, other@),
{
    let whole = match word(value, name) {
        Some(s) => s,
        None => match word(value, other) {
            Some(s) => s,
            None => String::new(),
        },
    };
    let cs = text::chars_of(whole.as_str());
    if cs.len() > MAX_TEXT {
        text::string_range(cs.as_slice(), 0, MAX_TEXT)
    } else {
        whole
    }
}

/// The first of two texts that is not empty.
pub open spec fn first_word(primary: Seq<char>, fallback: Seq<char>) -> Seq<char> {
    if primary.len() == 0 {
        fallback
    } else {
        primary
    }
}

/// The first of two texts that is not empty.
pub fn first_text(primary: String, fallback: String) -> (r: String)
    ensures
        r@ == first_word(primary@, fallback@),
{
    if text::is_empty(primary.as_str()) {
        fallback
    } else {
        primary
    }
}

/// An alert by its contents.
#[verifier::ext_equal]
pub ghost struct AlertView {
    pub id: Seq<char>,
    pub created_at: Seq<char>,
    pub scenario: Seq<char>,
    pub message: Seq<char>,
    pub source_scope: Seq<char>,
    pub source_value: Seq<char>,
    pub source_ip: Seq<char>,
    pub source_country: Seq<char>,
    pub source_as_name: Seq<char>,
    pub events_count: i32,
    pub simulated: bool,
    pub remediation: bool,
    pub decision_type: Seq<char>,
    pub decision_duration: Seq<char>,
}

impl View for CrowdSecAlert {
    type V = AlertView;

    open spec fn view(&self) -> AlertView {
        AlertView {
            id: self.id@,
            created_at: self.created_at@,
            scenario: self.scenario@,
            message: self.message@,
            source_scope: self.source_scope@,
            source_value: self.source_value@,
            source_ip: self.source_ip@,
            source_country: self.source_country@,
            source_as_name: self.source_as_name@,
            events_count: self.events_count,
            simulated: self.simulated,
            remediation: self.remediation,
            decision_type: self.decision_type@,
            decision_duration: self.decision_duration@,
        }
    }
}

/// How many events an alert counts, as far as an answer can hold it.
pub open spec fn events_of(value: JsonView, decided: bool) -> i32 {
    let counted = match field_of(value, "events_count"@) {
        Some(v) => Some(v),
        None => field_of(value, "eventsCount"@),
    };
    let n = match signed_of(counted) {
        Some(n) => n,
        None => if decided {
            1i64
        } else {
            0i64
        },
    };
    n as i32
}

/// The alert that a decision of an alert makes, or an alert without decisions: then the decision
/// is null.
pub open spec fn alert_of(value: JsonView, decision: JsonView) -> AlertView {
    let source = match field_of(value, "source"@) {
        Some(v) => v,
        None => JsonView::Null,
    };
    let decided = !(decision is Null);
    let scope = first_word(
        text_in(source, "scope"@, "scope"@),
        text_in(decision, "scope"@, "scope"@),
    );
    let address = first_word(
        text_in(source, "value"@, "value"@),
        text_in(decision, "value"@, "value"@),
    );
    AlertView {
        id: first_word(text_in(decision, "id"@, "id"@), text_in(value, "id"@, "id"@)),
        created_at: first_word(
            text_in(decision, "created_at"@, "createdAt"@),
            text_in(value, "created_at"@, "createdAt"@),
        ),
        scenario: first_word(
            text_in(value, "scenario"@, "scenario"@),
            text_in(decision, "scenario"@, "scenario"@),
        ),
        message: first_word(
            text_in(value, "message"@, "message"@),
            text_in(decision, "origin"@, "origin"@),
        ),
        source_scope: scope,
        source_value: address,
        source_ip: first_word(
            text_in(source, "ip"@, "ip"@),
            if text::lowered(scope) == text::lowered("ip"@) {
                address
            } else {
                Seq::empty()
            },
        ),
        source_country: text_in(source, "cn"@, "country"@),
        source_as_name: text_in(source, "as_name"@, "asName"@),
        events_count: events_of(value, decided),
        simulated: match bool_of(field_of(value, "simulated"@)) {
            Some(b) => b,
            None => false,
        },
        remediation: match bool_of(field_of(value, "remediation"@)) {
            Some(b) => b,
            None => decided,
        },
        decision_type: text_in(decision, "type"@, "type"@),
        decision_duration: text_in(decision, "duration"@, "duration"@),
    }
}

fn count_events(value: &Json, decided: bool) -> (r: i32)
    ensures
        r == events_of(value@, decided),
{
    let counted = match value.field("events_count") {
        Some(v) => Some(v),
        None => value.field("eventsCount"),
    };
    let fallback: i64 = if decided {
        1
    } else {
        0
    };
    let n: i64 = match counted {
        Some(v) => match v.as_signed() {
            Some(n) => n,
            None => fallback,
        },
        None => fallback,
    };
    #[verifier::truncate]
    (n as i32)
}

fn bool_field(value: &Json, name: &str, fallback: bool) -> (r: bool)
    ensures
        r == match bool_of(field_of(value@, name@)) {
            Some(b) => b,
            None => fallback,
        },
{
    match value.field(name) {
        Some(v) => match v.as_bool() {
            Some(b) => b,
            None => fallback,
        },
        None => fallback,
    }
}

/// The alert that a decision of an alert makes, or an alert without decisions.
pub fn map_alert(value: &Json, decision: &Json) -> (r: CrowdSecAlert)
    ensures
        r@ == alert_of(value@, decision@),
{
    broadcast use lemma_json_view;

    let nothing = Json::Null;
    let source = match value.field("source") {
        Some(v) => v,
        None => &nothing,
    };
    let decided = match decision {
        Json::Null => false,
        _ => true,
    };
    let source_scope = first_text(
        text_field(source, "scope", "scope"),
        text_field(decision, "scope", "scope"),
    );
    let source_value = first_text(
        text_field(source, "value", "value"),
        text_field(decision, "value", "value"),
    );
    let named = if text::same_ignoring_case(source_scope.as_str(), "ip") {
        source_value.as_str().to_owned()
    } else {
        String::new()
    };
    let source_ip = first_text(text_field(source, "ip", "ip"), named);
    CrowdSecAlert {
        id: first_text(text_field(decision, "id", "id"), text_field(value, "id", "id")),
        created_at: first_text(
            text_field(decision, "created_at", "createdAt"),
            text_field(value, "created_at", "createdAt"),
        ),
        scenario: first_text(
            text_field(value, "scenario", "scenario"),
            text_field(decision, "scenario", "scenario"),
        ),
        message: first_text(
            text_field(value, "message", "message"),
            text_field(decision, "origin", "origin"),
        ),
        source_scope,
        source_value,
        source_ip,
        source_country: text_field(source, "cn", "country"),
        source_as_name: text_field(source, "as_name", "asName"),
        events_count: count_events(value, decided),
        simulated: bool_field(value, "simulated", false),
        remediation: bool_field(value, "remediation", decided),
        decision_type: text_field(decision, "type", "type"),
        decision_duration: text_field(decision, "duration", "duration"),
    }
}

/// The alerts that one alert makes: one for each of its decisions, or one without a decision.
pub open spec fn expanded_one(value: JsonView) -> Seq<AlertView> {
    match field_of(value, "decisions"@) {
        Some(JsonView::Array(decisions)) => if decisions.len() > 0 {
            decisions.map_values(|d: JsonView| alert_of(value, d))
        } else {
            seq![alert_of(value, JsonView::Null)]
        },
        _ => seq![alert_of(value, JsonView::Null)],
    }
}

/// The alerts that some alerts make, in order.
pub open spec fn expanded(values: Seq<JsonView>) -> Seq<AlertView>
    decreases values.len(),
{
    if values.len() == 0 {
        Seq::empty()
    } else {
        expanded(values.drop_last()) + expanded_one(values.last())
    }
}

/// Alerts by their contents.
pub open spec fn alerts_view(alerts: Seq<CrowdSecAlert>) -> Seq<AlertView> {
    alerts.map_values(|a: CrowdSecAlert| a@)
}

proof fn lemma_first_of_append<T>(a: Seq<T>, b: Seq<T>, n: int)
    requires
        0 <= n,
    ensures
        n <= a.len() ==> first_of(a + b, n) == first_of(a, n),
{
    if n <= a.len() {
        assert(first_of(a + b, n) =~= first_of(a, n));
    }
}

proof fn lemma_expanded_prefix(values: Seq<JsonView>, k: int, n: int)
    requires
        0 <= k <= values.len(),
        0 <= n <= expanded(values.take(k)).len(),
    ensures
        first_of(expanded(values), n) == first_of(expanded(values.take(k)), n),
        expanded(values.take(k)).len() <= expanded(values).len(),
    decreases values.len(),
{
    if k == values.len() {
        assert(values.take(k) =~= values);
    } else {
        let shorter = values.drop_last();
        assert(shorter.take(k) =~= values.take(k));
        lemma_expanded_prefix(shorter, k, n);
        lemma_first_of_append(expanded(shorter), expanded_one(values.last()), n);
    }
}

/// The first alerts that some alerts make; all of them where the maximum is zero.
pub fn map_alerts(values: Vec<Json>, maximum: usize) -> (r: Vec<CrowdSecAlert>)
    ensures
        alerts_view(r@) == if maximum == 0 {
            expanded(items_view(values@))
        } else {
            first_of(expanded(items_view(values@)), maximum as int)
        },
{
    broadcast use lemma_json_view;

    let ghost all = items_view(values@);
    let mut mapped: Vec<CrowdSecAlert> = Vec::new();
    let mut i: usize = 0;
    assert(all.take(0) =~= Seq::<JsonView>::empty());
    assert(alerts_view(mapped@) =~= expanded(all.take(0)));
    while i < values.len()
        invariant
            all == items_view(values@),
            0 <= i <= values@.len(),
            maximum > 0 ==> mapped@.len() < maximum,
            alerts_view(mapped@) == expanded(all.take(i as int)),
        decreases values.len() - i,
    {
        broadcast use lemma_json_view;

        let value = &values[i];
        assert(all[i as int] == value@);
        assert(all.take(i + 1).drop_last() =~= all.take(i as int));
        assert(all.take(i + 1).last() == value@);
        let ghost before = expanded(all.take(i as int));
        let ghost more = expanded_one(value@);
        assert(expanded(all.take(i + 1)) == before + more);
        let decisions: Option<&Vec<Json>> = match value.field("decisions") {
            Some(Json::Array(list)) => if list.len() > 0 {
                Some(list)
            } else {
                None
            },
            _ => None,
        };
        match decisions {
            Some(list) => {
                let ghost each = items_view(list@);
                assert(field_of(value@, "decisions"@) == Some(JsonView::Array(each)));
                assert(each.len() == list@.len());
                assert(more == each.map_values(|d: JsonView| alert_of(value@, d)));
                let mut j: usize = 0;
                assert(before + more.take(0) =~= before);
                while j < list.len()
                    invariant
                        all == items_view(values@),
                        0 <= i < values@.len(),
                        value@ == all[i as int],
                        each == items_view(list@),
                        more == each.map_values(|d: JsonView| alert_of(value@, d)),
                        before == expanded(all.take(i as int)),
                        expanded(all.take(i + 1)) == before + more,
                        0 <= j <= list@.len(),
                        maximum > 0 ==> mapped@.len() < maximum,
                        alerts_view(mapped@) == before + more.take(j as int),
                    decreases list.len() - j,
                {
                    let ghost sofar = mapped@;
                    assert(each[j as int] == list@[j as int]@);
                    let alert = map_alert(value, &list[j]);
                    assert(more[j as int] == alert@);
                    mapped.push(alert);
                    proof {
                        assert(alerts_view(mapped@) =~= alerts_view(sofar).push(alert@));
                        assert(more.take(j + 1) =~= more.take(j as int).push(more[j as int]));
                        assert(before + more.take(j + 1) =~= (before + more.take(j as int)).push(
                            more[j as int],
                        ));
                    }
                    if mapped.len() == maximum {
                        proof {
                            lemma_expanded_prefix(all, i + 1, maximum as int);
                            assert(first_of(before + more, maximum as int) =~= before + more.take(
                                j + 1,
                            ));
                        }
                        return mapped;
                    }
                    j += 1;
                }
                assert(more.take(more.len() as int) =~= more);
            },
            None => {
                let ghost sofar = mapped@;
                let alert = map_alert(value, &Json::Null);
                assert(more =~= seq![alert@]);
                mapped.push(alert);
                assert(alerts_view(mapped@) =~= before + more);
                if mapped.len() == maximum {
                    proof {
                        lemma_expanded_prefix(all, i + 1, maximum as int);
                        assert(first_of(before + more, maximum as int) =~= before + more);
                    }
                    return mapped;
                }
            },
        }
        i += 1;
    }
    assert(all.take(all.len() as int) =~= all);
    mapped
}

/// The answer with the alerts that were printed, or with why there are none.
pub fn alerts_response(raw: Result<String, Failure>, maximum: usize, collected_at: &str) -> (r:
    CrowdSecAlertsResponse)
    ensures
        r.enabled,
        r.supported,
        r.collected_at@ == collected_at@,
        match raw {
            Err(e) => r.status@ == "unavailable"@ && r.error_message@ == e.message@
                && r.alerts@.len() == 0,
            Ok(s) => match printed(s@) {
                None => r.status@ == "unavailable"@ && r.error_message@ == "parse CrowdSec JSON"@
                    && r.alerts@.len() == 0,
                Some(v) => r.status@ == "active"@ && r.error_message@ == ""@ && alerts_view(
                    r.alerts@,
                ) == first_of(
                    expanded(first_of(alerts_in(v), maximum as int)),
                    maximum as int,
                ),
            },
        },
{
    let raw = match raw {
        Ok(s) => s,
        Err(e) => {
            return response(true, true, "unavailable", e.message.as_str(), collected_at);
        },
    };
    match parse_alerts(raw.as_str(), maximum) {
        Ok(values) => CrowdSecAlertsResponse {
            enabled: true,
            supported: true,
            status: "active".to_owned(),
            error_message: "".to_owned(),
            collected_at: collected_at.to_owned(),
            alerts: map_alerts(values, maximum),
        },
        Err(e) => response(true, true, "unavailable", e.message.as_str(), collected_at),
    }
}

// ---------------------------------------------------------------------------------------------
// Laws.

/// No more alerts are answered than are asked for.
pub proof fn law_alerts_are_limited(values: Seq<JsonView>, maximum: int)
    requires
        maximum >= 0,
    ensures
        first_of(expanded(first_of(values, maximum)), maximum).len() <= maximum,
{
}

/// An alert without decisions makes one alert, and one with decisions makes one for each.
pub proof fn law_each_decision_is_an_alert(value: JsonView)
    ensures
        expanded_one(value).len() == match field_of(value, "decisions"@) {
            Some(JsonView::Array(decisions)) => if decisions.len() > 0 {
                decisions.len()
            } else {
                1
            },
            _ => 1,
        },
{
}

/// How asking the programs that are left ends, where they answer so.
pub open spec fn query_end(
    left: Seq<Seq<char>>,
    last: Option<Seq<char>>,
    answers: spec_fn(Seq<char>) -> Result<Seq<char>, Seq<char>>,
) -> QueryView
    decreases left.len(),
{
    let step = asking(left, last);
    match step {
        QueryView::Ask(program, rest) => match answers(program) {
            Ok(_) => asked(step, answers(program)),
            Err(m) => query_end(left.skip(1), Some(m), answers),
        },
        other => other,
    }
}

/// The first program that answers is heard, and none behind it is asked.
pub proof fn law_the_first_answer_counts(
    left: Seq<Seq<char>>,
    last: Option<Seq<char>>,
    answers: spec_fn(Seq<char>) -> Result<Seq<char>, Seq<char>>,
    i: int,
)
    requires
        0 <= i < left.len(),
        answers(left[i]) is Ok,
        forall|j: int| 0 <= j < i ==> answers(#[trigger] left[j]) is Err,
    ensures
        query_end(left, last, answers) == QueryView::Answered(answers(left[i])->Ok_0),
    decreases i,
{
    if i > 0 {
        let rest = left.skip(1);
        assert(answers(left[0]) is Err);
        assert forall|j: int| 0 <= j < i - 1 implies answers(#[trigger] rest[j]) is Err by {
            assert(rest[j] == left[j + 1]);
        }
        assert(rest[i - 1] == left[i]);
        law_the_first_answer_counts(rest, Some(answers(left[0])->Err_0), answers, i - 1);
    }
}

/// Where no program answers, what the last one failed with is reported; where there is none, that
/// there is none.
pub proof fn law_the_last_failure_is_reported(
    left: Seq<Seq<char>>,
    last: Option<Seq<char>>,
    answers: spec_fn(Seq<char>) -> Result<Seq<char>, Seq<char>>,
)
    requires
        forall|j: int| 0 <= j < left.len() ==> answers(#[trigger] left[j]) is Err,
    ensures
        query_end(left, last, answers) == QueryView::Failed(
            if left.len() > 0 {
                answers(left.last())->Err_0
            } else {
                match last {
                    Some(m) => m,
                    None => "cscli path is empty"@,
                }
            },
        ),
    decreases left.len(),
{
    if left.len() > 0 {
        let rest = left.skip(1);
        assert(answers(left[0]) is Err);
        assert forall|j: int| 0 <= j < rest.len() implies answers(#[trigger] rest[j]) is Err by {
            assert(rest[j] == left[j + 1]);
        }
        law_the_last_failure_is_reported(rest, Some(answers(left[0])->Err_0), answers);
        if rest.len() > 0 {
            assert(rest.last() == left.last());
        }
    }
}

} // verus!
