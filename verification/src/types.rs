//! The values that describe one tested endpoint and the settings of a run.

use vstd::prelude::*;
use crate::text::{opt_view, string_views};

verus! {

/// How an endpoint fared.
#[derive(Debug, Clone, Copy, PartialEq, Eq, Structural)]
pub enum DoHStatus {
    Working,
    Flaky,
    Blocked,
    Interrupted,
}

/// The request form that produced an answer.
#[derive(Debug, Clone, Copy, PartialEq, Eq, Structural)]
pub enum DoHMethod {
    GetWire,
    PostWire,
    GetJson,
}

/// What was learned about one DoH endpoint. The measured latency is kept by
/// the caller, next to this record.
#[derive(Debug)]
pub struct DoHResult {
    pub status: DoHStatus,
    pub url: String,
    pub host: String,
    pub port: u16,
    pub tcp_ok: bool,
    pub tls_ok: bool,
    pub tls_info: Option<String>,
    pub doh_server_ip: Option<String>,
    pub successes: u32,
    pub attempts: u32,
    pub target_ips: String,
    pub method: Option<DoHMethod>,
    pub notes: Vec<String>,
}

/// A `DoHResult` with its strings taken by their characters.
pub struct ResultModel {
    pub status: DoHStatus,
    pub url: Seq<char>,
    pub host: Seq<char>,
    pub port: u16,
    pub tcp_ok: bool,
    pub tls_ok: bool,
    pub tls_info: Option<Seq<char>>,
    pub doh_server_ip: Option<Seq<char>>,
    pub successes: u32,
    pub attempts: u32,
    pub target_ips: Seq<char>,
    pub method: Option<DoHMethod>,
    pub notes: Seq<Seq<char>>,
}

impl View for DoHResult {
    type V = ResultModel;

    open spec fn view(&self) -> ResultModel {
        ResultModel {
            status: self.status,
            url: self.url@,
            host: self.host@,
            port: self.port,
            tcp_ok: self.tcp_ok,
            tls_ok: self.tls_ok,
            tls_info: opt_view(self.tls_info),
            doh_server_ip: opt_view(self.doh_server_ip),
            successes: self.successes,
            attempts: self.attempts,
            target_ips: self.target_ips@,
            method: self.method,
            notes: string_views(self.notes@),
        }
    }
}

/// A fresh record: blocked until shown otherwise, nothing observed yet.
pub open spec fn fresh_result(url: Seq<char>, host: Seq<char>, port: u16, attempts: u32) -> ResultModel {
    ResultModel {
        status: DoHStatus::Blocked,
        url,
        host,
        port,
        tcp_ok: false,
        tls_ok: false,
        tls_info: None,
        doh_server_ip: None,
        successes: 0,
        attempts,
        target_ips: seq![],
        method: None,
        notes: seq![],
    }
}

/// The record of an endpoint that a shutdown request kept from being tested.
pub open spec fn interrupted_result(url: Seq<char>, host: Seq<char>, port: u16, attempts: u32) -> ResultModel {
    ResultModel {
        status: DoHStatus::Interrupted,
        notes: seq!["interrupted_before_testing"@],
        ..fresh_result(url, host, port, attempts)
    }
}

impl DoHResult {
    /// A fresh record for an endpoint about to be tested.
    pub fn new(url: String, host: String, port: u16, attempts: u32) -> (r: DoHResult)
        ensures
            r@ == fresh_result(url@, host@, port, attempts),
    {
        let r = DoHResult {
            status: DoHStatus::Blocked,
            url,
            host,
            port,
            tcp_ok: false,
            tls_ok: false,
            tls_info: None,
            doh_server_ip: None,
            successes: 0,
            attempts,
            target_ips: String::new(),
            method: None,
            notes: Vec::new(),
        };
        assert(r@.notes =~= Seq::<Seq<char>>::empty());
        r
    }

    /// The record of an endpoint left untested because a shutdown was requested.
    pub fn interrupted(url: String, host: String, port: u16, attempts: u32) -> (r: DoHResult)
        ensures
            r@ == interrupted_result(url@, host@, port, attempts),
    {
        let mut r = DoHResult::new(url, host, port, attempts);
        r.status = DoHStatus::Interrupted;
        r.notes.push("interrupted_before_testing".to_owned());
        assert(r@.notes =~= seq!["interrupted_before_testing"@]);
        r
    }
}


/// Where the JSON report of a run goes.
#[derive(Debug)]
pub enum JsonOutput {
    /// No JSON report.
    Disabled,
    /// A JSON report under a timestamped name.
    Auto,
    /// A JSON report under this name.
    Filename(String),
}

/// `JsonOutput` taken by its characters.
pub enum JsonOutputModel {
    Disabled,
    Auto,
    Filename(Seq<char>),
}

impl View for JsonOutput {
    type V = JsonOutputModel;

    open spec fn view(&self) -> JsonOutputModel {
        match self {
            JsonOutput::Disabled => JsonOutputModel::Disabled,
            JsonOutput::Auto => JsonOutputModel::Auto,
            JsonOutput::Filename(name) => JsonOutputModel::Filename(name@),
        }
    }
}

/// The value of `json_output` in `config.json`: `false`, `true` or a file name.
#[derive(Debug)]
pub enum JsonSetting {
    Flag(bool),
    Name(String),
}

/// `JsonSetting` taken by its characters.
pub enum JsonSettingModel {
    Flag(bool),
    Name(Seq<char>),
}

impl View for JsonSetting {
    type V = JsonSettingModel;

    open spec fn view(&self) -> JsonSettingModel {
        match self {
            JsonSetting::Flag(b) => JsonSettingModel::Flag(*b),
            JsonSetting::Name(n) => JsonSettingModel::Name(n@),
        }
    }
}

/// How a `json_output` setting is read: `true` asks for a timestamped
/// report, `false` and the empty name for none, another name for that file.
pub open spec fn json_output_from(setting: JsonSettingModel) -> JsonOutputModel {
    match setting {
        JsonSettingModel::Flag(b) => if b { JsonOutputModel::Auto } else { JsonOutputModel::Disabled },
        JsonSettingModel::Name(n) => if n.len() == 0 {
            JsonOutputModel::Disabled
        } else {
            JsonOutputModel::Filename(n)
        },
    }
}

/// How a `json_output` setting is written.
pub open spec fn json_setting_of(o: JsonOutputModel) -> JsonSettingModel {
    match o {
        JsonOutputModel::Disabled => JsonSettingModel::Flag(false),
        JsonOutputModel::Auto => JsonSettingModel::Flag(true),
        JsonOutputModel::Filename(n) => JsonSettingModel::Name(n),
    }
}

impl JsonOutput {
    /// Reads a `json_output` setting.
    pub fn from_setting(setting: JsonSetting) -> (o: JsonOutput)
        ensures
            o@ == json_output_from(setting@),
    {
        match setting {
            JsonSetting::Flag(b) => if b { JsonOutput::Auto } else { JsonOutput::Disabled },
            JsonSetting::Name(n) => if n.as_str().is_empty() { JsonOutput::Disabled } else { JsonOutput::Filename(n) },
        }
    }

    /// The setting that stands for this choice in `config.json`.
    pub fn to_setting(&self) -> (s: JsonSetting)
        ensures
            s@ == json_setting_of(self@),
    {
        match self {
            JsonOutput::Disabled => JsonSetting::Flag(false),
            JsonOutput::Auto => JsonSetting::Flag(true),
            JsonOutput::Filename(n) => JsonSetting::Name(n.clone()),
        }
    }
}

impl Default for JsonOutput {
    fn default() -> (o: JsonOutput)
        ensures
            o@ == JsonOutputModel::Disabled,
    {
        JsonOutput::Disabled
    }
}

/// The settings of a run that `config.json` holds, but for the timeout, a
/// number of seconds that the caller keeps.
#[derive(Debug)]
pub struct Config {
    pub doh_file: String,
    pub output_file: String,
    pub workers: usize,
    pub attempts: u32,
    pub min_success: u32,
    pub remove_working_from_doh_file: bool,
    pub working_only: bool,
    pub json_output: JsonOutput,
    pub show_headers: bool,
    pub show_status: bool,
    pub show_doh_url: bool,
    pub show_host: bool,
    pub show_doh_ip: bool,
    pub show_target_ip: bool,
    pub show_ping: bool,
}

/// The settings of a run when `config.json` says nothing.
pub open spec fn is_default_config(c: Config) -> bool {
    &&& c.doh_file@ == "doh.txt"@
    &&& c.output_file@ == Seq::<char>::empty()
    &&& c.workers == 20
    &&& c.attempts == 3
    &&& c.min_success == 2
    &&& !c.remove_working_from_doh_file
    &&& !c.working_only
    &&& c.json_output@ == JsonOutputModel::Disabled
    &&& c.show_headers
    &&& c.show_status
    &&& c.show_doh_url
    &&& c.show_host
    &&& c.show_doh_ip
    &&& !c.show_target_ip
    &&& c.show_ping
}

impl Default for Config {
    fn default() -> (c: Config)
        ensures
            is_default_config(c),
    {
        Config {
            doh_file: "doh.txt".to_owned(),
            output_file: String::new(),
            workers: 20,
            attempts: 3,
            min_success: 2,
            remove_working_from_doh_file: false,
            working_only: false,
            json_output: JsonOutput::Disabled,
            show_headers: true,
            show_status: true,
            show_doh_url: true,
            show_host: true,
            show_doh_ip: true,
            show_target_ip: false,
            show_ping: true,
        }
    }
}

/// Writing a `json_output` choice into `config.json` and reading it back
/// gives the same choice, for every choice but a file name that is empty.
pub proof fn lemma_json_setting_round_trip(o: JsonOutputModel)
    requires
        !(o matches JsonOutputModel::Filename(n) && n.len() == 0),
    ensures
        json_output_from(json_setting_of(o)) == o,
{
}

/// Reading a `json_output` setting and writing it back gives the same
/// setting, for every setting but the empty file name (written as `false`).
pub proof fn lemma_json_output_round_trip(s: JsonSettingModel)
    requires
        !(s matches JsonSettingModel::Name(n) && n.len() == 0),
    ensures
        json_setting_of(json_output_from(s)) == s,
{
}

} // verus!
