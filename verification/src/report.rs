//! What a run reports: the text table, the list of working URLs, the
//! progress lines, the summary and where the files go.

use vstd::prelude::*;
use vstd::utf8::{decode_utf8, encode_utf8, is_char_boundary};
use crate::text::{copy_string, decimal, join, push_char, push_decimal, push_str, string_views};
use crate::types::{Config, DoHMethod, DoHResult, DoHStatus, JsonOutput, JsonOutputModel, ResultModel};

verus! {

/// The name of a status as Rust's `Debug` prints it.
pub open spec fn status_debug(s: DoHStatus) -> Seq<char> {
    match s {
        DoHStatus::Working => "Working"@,
        DoHStatus::Flaky => "Flaky"@,
        DoHStatus::Blocked => "Blocked"@,
        DoHStatus::Interrupted => "Interrupted"@,
    }
}

/// The name of a status as Rust's `Debug` prints it.
pub fn status_name(s: DoHStatus) -> (n: String)
    ensures
        n@ == status_debug(s),
{
    match s {
        DoHStatus::Working => "Working".to_owned(),
        DoHStatus::Flaky => "Flaky".to_owned(),
        DoHStatus::Blocked => "Blocked".to_owned(),
        DoHStatus::Interrupted => "Interrupted".to_owned(),
    }
}

/// The name of a request form as Rust's `Debug` prints it.
pub open spec fn method_debug(m: DoHMethod) -> Seq<char> {
    match m {
        DoHMethod::GetWire => "GetWire"@,
        DoHMethod::PostWire => "PostWire"@,
        DoHMethod::GetJson => "GetJson"@,
    }
}

/// The name of a request form as Rust's `Debug` prints it.
pub fn method_name(m: DoHMethod) -> (n: String)
    ensures
        n@ == method_debug(m),
{
    match m {
        DoHMethod::GetWire => "GetWire".to_owned(),
        DoHMethod::PostWire => "PostWire".to_owned(),
        DoHMethod::GetJson => "GetJson".to_owned(),
    }
}

/// The progress mark of a status.
pub open spec fn status_mark(s: DoHStatus) -> Seq<char> {
    match s {
        DoHStatus::Working => "\u{2713}"@,
        DoHStatus::Flaky => "~"@,
        DoHStatus::Blocked => "\u{2717}"@,
        DoHStatus::Interrupted => "!"@,
    }
}

/// The progress mark of a status.
pub fn status_symbol(s: DoHStatus) -> (m: String)
    ensures
        m@ == status_mark(s),
{
    match s {
        DoHStatus::Working => "\u{2713}".to_owned(),
        DoHStatus::Flaky => "~".to_owned(),
        DoHStatus::Blocked => "\u{2717}".to_owned(),
        DoHStatus::Interrupted => "!".to_owned(),
    }
}

/// `s` followed by spaces up to `width` characters, as `{:<width}` writes it.
pub open spec fn pad_right(s: Seq<char>, width: nat) -> Seq<char> {
    if s.len() < width {
        s + Seq::new((width - s.len()) as nat, |i: int| ' ')
    } else {
        s
    }
}

/// Appends `t` padded with spaces to `width` characters.
pub fn push_padded(s: &mut String, t: &str, width: usize)
    ensures
        final(s)@ == old(s)@ + pad_right(t@, width as nat),
{
    let v = crate::text::chars_of(t);
    push_str(s, t);
    let ghost base = old(s)@ + t@;
    let mut n: usize = v.len();
    while n < width
        invariant
            v.len() <= n <= width || (n == v.len() && v.len() >= width),
            v@ == t@,
            s@ == base + Seq::new((n - v.len()) as nat, |i: int| ' '),
        decreases width - n,
    {
        push_char(s, ' ');
        assert(s@ =~= base + Seq::new((n + 1 - v.len()) as nat, |i: int| ' '));
        n = n + 1;
    }
    proof {
        if t@.len() < width {
            assert(s@ =~= old(s)@ + pad_right(t@, width as nat));
        } else {
            assert(s@ =~= old(s)@ + pad_right(t@, width as nat));
        }
    }
}

/// The URL as the table shows it: its first 38 bytes when it is longer.
pub open spec fn url_cell(url: Seq<char>) -> Seq<char> {
    if encode_utf8(url).len() > 38 {
        decode_utf8(encode_utf8(url).take(38))
    } else {
        url
    }
}

/// True when the table can cut `url` after 38 bytes: it is not longer, or a
/// character ends there.
pub open spec fn url_cuttable(url: Seq<char>) -> bool {
    encode_utf8(url).len() > 38 ==> is_char_boundary(encode_utf8(url), 38)
}

/// `text`, or `-` when there is none.
pub open spec fn or_dash(text: Option<Seq<char>>) -> Seq<char> {
    match text {
        Some(t) => t,
        None => "-"@,
    }
}

/// The target addresses, or `-` when there are none.
pub open spec fn ips_or_dash(ips: Seq<char>) -> Seq<char> {
    if ips.len() == 0 {
        "-"@
    } else {
        ips
    }
}

/// The cells of the columns that the settings show, each padded to its width.
pub open spec fn row_cells(c: Config, r: ResultModel, ping: Option<Seq<char>>) -> Seq<Seq<char>> {
    (if c.show_status { seq![pad_right(status_debug(r.status), 8)] } else { seq![] })
        + (if c.show_doh_url { seq![pad_right(url_cell(r.url), 40)] } else { seq![] })
        + (if c.show_host { seq![pad_right(r.host, 25)] } else { seq![] })
        + (if c.show_doh_ip { seq![pad_right(or_dash(r.doh_server_ip), 18)] } else { seq![] })
        + (if c.show_target_ip { seq![pad_right(ips_or_dash(r.target_ips), 18)] } else { seq![] })
        + (if c.show_ping { seq![pad_right(or_dash(ping), 10)] } else { seq![] })
}

/// The column titles that the settings show, each padded to its width.
pub open spec fn header_cells(c: Config) -> Seq<Seq<char>> {
    (if c.show_status { seq![pad_right("STATUS"@, 8)] } else { seq![] })
        + (if c.show_doh_url { seq![pad_right("URL"@, 40)] } else { seq![] })
        + (if c.show_host { seq![pad_right("HOST"@, 25)] } else { seq![] })
        + (if c.show_doh_ip { seq![pad_right("DOH_IP"@, 18)] } else { seq![] })
        + (if c.show_target_ip { seq![pad_right("TARGET_IP"@, 18)] } else { seq![] })
        + (if c.show_ping { seq![pad_right("PING_MS"@, 10)] } else { seq![] })
}

/// A run of `n` dashes.
pub open spec fn dashes(n: nat) -> Seq<char> {
    Seq::new(n, |i: int| '-')
}

/// The header lines of the table: when the settings show headers, the
/// generation time, the column titles and a rule of as many dashes as the
/// titles have bytes.
pub open spec fn header_lines(c: Config, timestamp: Seq<char>) -> Seq<Seq<char>> {
    if c.show_headers {
        let titles = join(header_cells(c), " "@);
        seq!["# Generated: "@ + timestamp, titles, dashes(encode_utf8(titles).len())]
    } else {
        seq![]
    }
}

/// True when the table, with `working_only`, shows the record.
pub open spec fn selected(r: ResultModel, working_only: bool) -> bool {
    !working_only || r.status == DoHStatus::Working
}

/// The rows of the records that the table shows, in order; `pings[i]` is
/// the latency text of record `i`.
pub open spec fn table_rows(
    c: Config,
    results: Seq<ResultModel>,
    pings: Seq<Option<Seq<char>>>,
    working_only: bool,
) -> Seq<Seq<char>>
    decreases results.len(),
{
    if results.len() == 0 || pings.len() == 0 {
        seq![]
    } else {
        let rest = table_rows(c, results.drop_last(), pings.drop_last(), working_only);
        if selected(results.last(), working_only) {
            rest.push(join(row_cells(c, results.last(), pings.last()), " "@))
        } else {
            rest
        }
    }
}

/// The records of a sequence of results.
pub open spec fn result_models(v: Seq<DoHResult>) -> Seq<ResultModel> {
    v.map_values(|r: DoHResult| r@)
}

/// Optional strings taken by their characters.
pub open spec fn opt_views(v: Seq<Option<String>>) -> Seq<Option<Seq<char>>> {
    v.map_values(|o: Option<String>| crate::text::opt_view(o))
}


/// `t` padded with spaces to `width` characters.
fn padded(t: &str, width: usize) -> (s: String)
    ensures
        s@ == pad_right(t@, width as nat),
{
    let mut s = String::new();
    push_padded(&mut s, t, width);
    s
}

/// The URL cell of the table.
fn url_cell_text(url: &String) -> (s: String)
    requires
        url_cuttable(url@),
    ensures
        s@ == pad_right(url_cell(url@), 40),
{
    broadcast use vstd::utf8::encode_utf8_decode_utf8;
    let u = url.as_str();
    let bytes = u.as_bytes();
    if bytes.len() > 38 {
        let (head, _tail) = u.split_at(38);
        assert(encode_utf8(head@) =~= encode_utf8(url@).take(38));
        assert(decode_utf8(encode_utf8(head@)) == head@);
        assert(head@ == url_cell(url@));
        padded(head, 40)
    } else {
        padded(u, 40)
    }
}

/// Appends a cell when its column is shown.
fn push_cell(cells: &mut Vec<String>, shown: bool, cell: String)
    ensures
        string_views(final(cells)@) == string_views(old(cells)@) + (if shown { seq![cell@] } else { seq![] }),
{
    let ghost before = string_views(cells@);
    if shown {
        cells.push(cell);
        assert(string_views(cells@) =~= before + seq![cell@]);
    } else {
        assert(string_views(cells@) =~= before + Seq::<Seq<char>>::empty());
    }
}

/// One row of the table.
pub fn table_row(c: &Config, r: &DoHResult, ping: &Option<String>) -> (line: String)
    requires
        c.show_doh_url ==> url_cuttable(r.url@),
    ensures
        line@ == join(row_cells(*c, r@, crate::text::opt_view(*ping)), " "@),
{
    let mut cells: Vec<String> = Vec::new();
    let status = status_name(r.status);
    push_cell(&mut cells, c.show_status, padded(status.as_str(), 8));
    let url = if c.show_doh_url { url_cell_text(&r.url) } else { String::new() };
    push_cell(&mut cells, c.show_doh_url, url);
    push_cell(&mut cells, c.show_host, padded(r.host.as_str(), 25));
    let ip = match &r.doh_server_ip {
        Some(ip) => padded(ip.as_str(), 18),
        None => padded("-", 18),
    };
    push_cell(&mut cells, c.show_doh_ip, ip);
    let target = if r.target_ips.as_str().is_empty() { padded("-", 18) } else { padded(r.target_ips.as_str(), 18) };
    push_cell(&mut cells, c.show_target_ip, target);
    let latency = match ping {
        Some(p) => padded(p.as_str(), 10),
        None => padded("-", 10),
    };
    push_cell(&mut cells, c.show_ping, latency);
    assert(string_views(cells@) =~= row_cells(*c, r@, crate::text::opt_view(*ping)));
    crate::text::join_strings(&cells, " ")
}

/// The column titles of the table.
fn header_titles(c: &Config) -> (line: String)
    ensures
        line@ == join(header_cells(*c), " "@),
{
    let mut cells: Vec<String> = Vec::new();
    push_cell(&mut cells, c.show_status, padded("STATUS", 8));
    push_cell(&mut cells, c.show_doh_url, padded("URL", 40));
    push_cell(&mut cells, c.show_host, padded("HOST", 25));
    push_cell(&mut cells, c.show_doh_ip, padded("DOH_IP", 18));
    push_cell(&mut cells, c.show_target_ip, padded("TARGET_IP", 18));
    push_cell(&mut cells, c.show_ping, padded("PING_MS", 10));
    assert(string_views(cells@) =~= header_cells(*c));
    crate::text::join_strings(&cells, " ")
}

/// The lines of the text report: the header lines when the settings show
/// them, then one row for each record shown (all of them, or the working
/// ones when `working_only`), in order. `pings[i]` is the latency text of
/// `results[i]`, and `timestamp` the time of writing.
pub fn text_table_lines(
    results: &Vec<DoHResult>,
    pings: &Vec<Option<String>>,
    config: &Config,
    working_only: bool,
    timestamp: &str,
) -> (lines: Vec<String>)
    requires
        pings.len() == results.len(),
        config.show_doh_url ==> forall|i: int|
            0 <= i < results.len() && selected(#[trigger] results@[i]@, working_only) ==> url_cuttable(results@[i].url@),
    ensures
        string_views(lines@) == header_lines(*config, timestamp@) + table_rows(
            *config,
            result_models(results@),
            opt_views(pings@),
            working_only,
        ),
{
    let mut lines: Vec<String> = Vec::new();
    if config.show_headers {
        let mut first = "# Generated: ".to_owned();
        push_str(&mut first, timestamp);
        lines.push(first);
        let titles = header_titles(config);
        let width = titles.as_str().as_bytes().len();
        let mut rule = String::new();
        let mut k: usize = 0;
        while k < width
            invariant
                k <= width,
                rule@ == dashes(k as nat),
            decreases width - k,
        {
            push_char(&mut rule, '-');
            assert(rule@ =~= dashes((k + 1) as nat));
            k = k + 1;
        }
        lines.push(titles);
        lines.push(rule);
    }
    let ghost head = string_views(lines@);
    assert(head =~= header_lines(*config, timestamp@));
    let ghost models = result_models(results@);
    let ghost pv = opt_views(pings@);
    let mut i: usize = 0;
    assert(models.take(0).len() == 0);
    while i < results.len()
        invariant
            i <= results.len() == pings.len(),
            models == result_models(results@),
            pv == opt_views(pings@),
            config.show_doh_url ==> forall|j: int|
                0 <= j < results.len() && selected(#[trigger] results@[j]@, working_only) ==> url_cuttable(results@[j].url@),
            string_views(lines@) == head + table_rows(*config, models.take(i as int), pv.take(i as int), working_only),
        decreases results.len() - i,
    {
        assert(models.take(i + 1).drop_last() =~= models.take(i as int));
        assert(pv.take(i + 1).drop_last() =~= pv.take(i as int));
        assert(models.take(i + 1).last() == results@[i as int]@);
        assert(pv.take(i + 1).last() == crate::text::opt_view(pings@[i as int]));
        let r = &results[i];
        let ghost before = string_views(lines@);
        if !working_only || r.status == DoHStatus::Working {
            let row = table_row(config, r, &pings[i]);
            lines.push(row);
            assert(string_views(lines@) =~= before.push(row@));
        }
        i = i + 1;
    }
    assert(models.take(results.len() as int) =~= models);
    assert(pv.take(results.len() as int) =~= pv);
    lines
}


/// The URLs of the working records, in order.
pub open spec fn working_url_list(results: Seq<ResultModel>) -> Seq<Seq<char>>
    decreases results.len(),
{
    if results.len() == 0 {
        seq![]
    } else {
        let rest = working_url_list(results.drop_last());
        if results.last().status == DoHStatus::Working {
            rest.push(results.last().url)
        } else {
            rest
        }
    }
}

/// The URLs of the working endpoints, one per line of the clean report.
pub fn working_urls(results: &Vec<DoHResult>) -> (urls: Vec<String>)
    ensures
        string_views(urls@) == working_url_list(result_models(results@)),
{
    let ghost models = result_models(results@);
    let mut urls: Vec<String> = Vec::new();
    let mut i: usize = 0;
    while i < results.len()
        invariant
            i <= results.len(),
            models == result_models(results@),
            string_views(urls@) == working_url_list(models.take(i as int)),
        decreases results.len() - i,
    {
        assert(models.take(i + 1).drop_last() =~= models.take(i as int));
        assert(models.take(i + 1).last() == results@[i as int]@);
        let ghost before = string_views(urls@);
        if results[i].status == DoHStatus::Working {
            urls.push(copy_string(&results[i].url));
            assert(string_views(urls@) =~= before.push(results@[i as int].url@));
        }
        i = i + 1;
    }
    assert(models.take(results.len() as int) =~= models);
    urls
}

/// Positions of the records that a report with `working_only` keeps, in order.
pub open spec fn selected_positions(results: Seq<ResultModel>, working_only: bool) -> Seq<usize>
    decreases results.len(),
{
    if results.len() == 0 {
        seq![]
    } else {
        let rest = selected_positions(results.drop_last(), working_only);
        if selected(results.last(), working_only) {
            rest.push((results.len() - 1) as usize)
        } else {
            rest
        }
    }
}

/// Positions of the records that the reports show: all of them, or the
/// working ones when `working_only`.
pub fn selected_indices(results: &Vec<DoHResult>, working_only: bool) -> (idx: Vec<usize>)
    ensures
        idx@ == selected_positions(result_models(results@), working_only),
{
    let ghost models = result_models(results@);
    let mut idx: Vec<usize> = Vec::new();
    let mut i: usize = 0;
    while i < results.len()
        invariant
            i <= results.len(),
            models == result_models(results@),
            idx@ == selected_positions(models.take(i as int), working_only),
        decreases results.len() - i,
    {
        assert(models.take(i + 1).drop_last() =~= models.take(i as int));
        assert(models.take(i + 1).last() == results@[i as int]@);
        if !working_only || results[i].status == DoHStatus::Working {
            idx.push(i);
        }
        i = i + 1;
    }
    assert(models.take(results.len() as int) =~= models);
    idx
}

/// How many records have status `s`.
pub open spec fn count_status(results: Seq<ResultModel>, s: DoHStatus) -> nat
    decreases results.len(),
{
    if results.len() == 0 {
        0
    } else {
        count_status(results.drop_last(), s) + if results.last().status == s { 1nat } else { 0nat }
    }
}

/// The closing line of a run: where the results went, the count of each
/// status (interrupted ones only when there are any) and the report mode.
pub open spec fn summary_text(results: Seq<ResultModel>, output_path: Seq<char>, working_only: bool) -> Seq<char> {
    let interrupted = count_status(results, DoHStatus::Interrupted);
    "Done. Results saved to "@ + output_path + ". WORKING="@ + decimal(count_status(results, DoHStatus::Working))
        + ", FLAKY="@ + decimal(count_status(results, DoHStatus::Flaky)) + ", BLOCKED="@ + decimal(
        count_status(results, DoHStatus::Blocked),
    ) + (if interrupted > 0 { ", INTERRUPTED="@ + decimal(interrupted) } else { seq![] }) + " ["@ + (
    if working_only { "working-only"@ } else { "full details"@ }) + "]"@
}

/// Counts the records of each status.
fn status_counts(results: &Vec<DoHResult>) -> (counts: (usize, usize, usize, usize))
    ensures
        counts.0 == count_status(result_models(results@), DoHStatus::Working),
        counts.1 == count_status(result_models(results@), DoHStatus::Flaky),
        counts.2 == count_status(result_models(results@), DoHStatus::Blocked),
        counts.3 == count_status(result_models(results@), DoHStatus::Interrupted),
{
    let ghost models = result_models(results@);
    let mut w: usize = 0;
    let mut f: usize = 0;
    let mut b: usize = 0;
    let mut n: usize = 0;
    let mut i: usize = 0;
    while i < results.len()
        invariant
            i <= results.len(),
            models == result_models(results@),
            w == count_status(models.take(i as int), DoHStatus::Working),
            f == count_status(models.take(i as int), DoHStatus::Flaky),
            b == count_status(models.take(i as int), DoHStatus::Blocked),
            n == count_status(models.take(i as int), DoHStatus::Interrupted),
            w + f + b + n == i,
        decreases results.len() - i,
    {
        assert(models.take(i + 1).drop_last() =~= models.take(i as int));
        assert(models.take(i + 1).last() == results@[i as int]@);
        match results[i].status {
            DoHStatus::Working => w = w + 1,
            DoHStatus::Flaky => f = f + 1,
            DoHStatus::Blocked => b = b + 1,
            DoHStatus::Interrupted => n = n + 1,
        }
        i = i + 1;
    }
    assert(models.take(results.len() as int) =~= models);
    (w, f, b, n)
}

/// The closing line of a run.
pub fn summary_line(results: &Vec<DoHResult>, output_path: &str, working_only: bool) -> (line: String)
    ensures
        line@ == summary_text(result_models(results@), output_path@, working_only),
{
    let (w, f, b, n) = status_counts(results);
    let mut line = "Done. Results saved to ".to_owned();
    push_str(&mut line, output_path);
    push_str(&mut line, ". WORKING=");
    push_decimal(&mut line, w as u64);
    push_str(&mut line, ", FLAKY=");
    push_decimal(&mut line, f as u64);
    push_str(&mut line, ", BLOCKED=");
    push_decimal(&mut line, b as u64);
    let ghost mid = line@;
    if n > 0 {
        push_str(&mut line, ", INTERRUPTED=");
        push_decimal(&mut line, n as u64);
    }
    let ghost tail = line@;
    push_str(&mut line, " [");
    if working_only {
        push_str(&mut line, "working-only");
    } else {
        push_str(&mut line, "full details");
    }
    push_str(&mut line, "]");
    proof {
        if n > 0 {
            assert(tail =~= mid + (", INTERRUPTED="@ + decimal(n as nat)));
        } else {
            assert(tail =~= mid + Seq::<char>::empty());
        }
    }
    assert(line@ =~= summary_text(result_models(results@), output_path@, working_only));
    line
}

/// A line of live progress: `[done/total] mark url (latency ms)`, with `-`
/// for a missing latency.
pub open spec fn progress_text(completed: nat, total: nat, status: DoHStatus, url: Seq<char>, latency: Option<Seq<char>>) -> Seq<char> {
    "["@ + decimal(completed) + "/"@ + decimal(total) + "] "@ + status_mark(status) + " "@ + url + " ("@
        + or_dash(latency) + "ms)"@
}

/// A line of live progress.
pub fn progress_line(completed: u64, total: u64, status: DoHStatus, url: &str, latency: &Option<String>) -> (line: String)
    ensures
        line@ == progress_text(completed as nat, total as nat, status, url@, crate::text::opt_view(*latency)),
{
    let mut line = "[".to_owned();
    push_decimal(&mut line, completed);
    push_str(&mut line, "/");
    push_decimal(&mut line, total);
    push_str(&mut line, "] ");
    let mark = status_symbol(status);
    push_str(&mut line, mark.as_str());
    push_str(&mut line, " ");
    push_str(&mut line, url);
    push_str(&mut line, " (");
    match latency {
        Some(l) => push_str(&mut line, l.as_str()),
        None => push_str(&mut line, "-"),
    }
    push_str(&mut line, "ms)");
    line
}

/// Where the JSON report of `write_results` goes.
pub enum JsonTarget {
    /// No JSON report.
    Nowhere,
    /// A file named after the time of writing.
    Timestamped,
    /// This file.
    File(String),
}

/// The JSON report goes where the settings say: nowhere when disabled, to a
/// timestamped file for `true`, to the named file otherwise.
pub fn json_target(json_output: &JsonOutput) -> (t: JsonTarget)
    ensures
        match json_output@ {
            JsonOutputModel::Disabled => t is Nowhere,
            JsonOutputModel::Auto => t is Timestamped,
            JsonOutputModel::Filename(name) => t matches JsonTarget::File(f) && f@ == name,
        },
{
    match json_output {
        JsonOutput::Disabled => JsonTarget::Nowhere,
        JsonOutput::Auto => JsonTarget::Timestamped,
        JsonOutput::Filename(name) => JsonTarget::File(copy_string(name)),
    }
}

/// The path of the text report: the command line's, else the settings'
/// when not empty, else the timestamped name.
pub fn choose_output_path(cli: Option<String>, config_output: &String, timestamped: String) -> (path: String)
    ensures
        path@ == match cli {
            Some(p) => p@,
            None => if config_output@.len() > 0 { config_output@ } else { timestamped@ },
        },
{
    match cli {
        Some(p) => p,
        None => if !config_output.as_str().is_empty() { copy_string(config_output) } else { timestamped },
    }
}

/// The path of the JSON report asked for on the command line: the one
/// given, or the timestamped name when it is empty.
pub fn json_flag_path(given: String, timestamped: String) -> (path: String)
    ensures
        path@ == if given@.len() > 0 { given@ } else { timestamped@ },
{
    if given.as_str().is_empty() {
        timestamped
    } else {
        given
    }
}


/// Every record has one of the four statuses: the counts in the summary add
/// up to the number of records.
pub proof fn lemma_status_counts_total(results: Seq<ResultModel>)
    ensures
        count_status(results, DoHStatus::Working) + count_status(results, DoHStatus::Flaky) + count_status(
            results,
            DoHStatus::Blocked,
        ) + count_status(results, DoHStatus::Interrupted) == results.len(),
    decreases results.len(),
{
    if results.len() > 0 {
        lemma_status_counts_total(results.drop_last());
    }
}

/// The records whose status is `s`, in order.
pub open spec fn records_with(results: Seq<ResultModel>, s: DoHStatus) -> Seq<ResultModel> {
    results.filter(|r: ResultModel| r.status == s)
}

/// `count_status` counts exactly the records with that status.
pub proof fn lemma_count_status_is_filter(results: Seq<ResultModel>, s: DoHStatus)
    ensures
        count_status(results, s) == records_with(results, s).len(),
    decreases results.len(),
{
    reveal(Seq::filter);
    if results.len() > 0 {
        lemma_count_status_is_filter(results.drop_last(), s);
    }
}

/// The closing line names the output path, then after `WORKING=`, `FLAKY=`
/// and `BLOCKED=` the numbers of records with status Working, Flaky and
/// Blocked, then `INTERRUPTED=` with the number of interrupted records
/// when there is one, then the report mode.
pub proof fn lemma_summary_counts(results: Seq<ResultModel>, output_path: Seq<char>, working_only: bool)
    ensures
        summary_text(results, output_path, working_only) == "Done. Results saved to "@ + output_path
            + ". WORKING="@ + decimal(records_with(results, DoHStatus::Working).len()) + ", FLAKY="@
            + decimal(records_with(results, DoHStatus::Flaky).len()) + ", BLOCKED="@ + decimal(
            records_with(results, DoHStatus::Blocked).len(),
        ) + (if records_with(results, DoHStatus::Interrupted).len() > 0 {
            ", INTERRUPTED="@ + decimal(records_with(results, DoHStatus::Interrupted).len())
        } else {
            seq![]
        }) + " ["@ + (if working_only { "working-only"@ } else { "full details"@ }) + "]"@,
{
    lemma_count_status_is_filter(results, DoHStatus::Working);
    lemma_count_status_is_filter(results, DoHStatus::Flaky);
    lemma_count_status_is_filter(results, DoHStatus::Blocked);
    lemma_count_status_is_filter(results, DoHStatus::Interrupted);
}

/// The clean report lists one URL for each working record, each of them
/// the URL of a working record.
pub proof fn lemma_working_urls(results: Seq<ResultModel>)
    ensures
        working_url_list(results).len() == count_status(results, DoHStatus::Working),
        forall|i: int| 0 <= i < working_url_list(results).len() ==> exists|k: int|
            0 <= k < results.len() && results[k].status == DoHStatus::Working && results[k].url
                == #[trigger] working_url_list(results)[i],
    decreases results.len(),
{
    if results.len() > 0 {
        let init = results.drop_last();
        lemma_working_urls(init);
        let w = working_url_list(results);
        assert forall|i: int| 0 <= i < w.len() implies exists|k: int|
            0 <= k < results.len() && results[k].status == DoHStatus::Working && results[k].url == #[trigger] w[i] by {
            if i < working_url_list(init).len() {
                let k = choose|k: int| 0 <= k < init.len() && init[k].status == DoHStatus::Working && init[k].url
                    == #[trigger] working_url_list(init)[i];
                assert(results[k] == init[k]);
            } else {
                assert(results[results.len() - 1] == results.last());
            }
        }
    }
}

/// How many records a report with `working_only` keeps.
pub open spec fn count_selected(results: Seq<ResultModel>, working_only: bool) -> nat {
    if working_only {
        count_status(results, DoHStatus::Working)
    } else {
        results.len()
    }
}

/// The table has one row per record it keeps (all, or the working ones).
pub proof fn lemma_table_row_count(c: Config, results: Seq<ResultModel>, pings: Seq<Option<Seq<char>>>, working_only: bool)
    requires
        pings.len() == results.len(),
    ensures
        table_rows(c, results, pings, working_only).len() == count_selected(results, working_only),
        selected_positions(results, working_only).len() == count_selected(results, working_only),
    decreases results.len(),
{
    if results.len() > 0 {
        lemma_table_row_count(c, results.drop_last(), pings.drop_last(), working_only);
    }
}

} // verus!
