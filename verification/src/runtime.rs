//! The connection state machine: what a running client and tunnel look like,
//! how polling their processes, connecting and disconnecting change the
//! state, and which outside steps each transition asks the caller to take.
use vstd::prelude::*;

use crate::platform::{
    spec_tunnel_interface_name, spec_vpn_admin_required_message, spec_vpn_unavailable_message,
    texts, tunnel_interface_name, vpn_admin_required_message, vpn_platform,
    vpn_unavailable_message, PlatformCapabilities, TargetOs,
};
use crate::ip::{spec_ip_text, spec_parse_ip};
use crate::net::{canonical_google_ip, google_ip_input, share_addresses, spec_share_addresses};
use crate::performance::{normalize_performance_settings, spec_normalize, ClientPerformanceSettings};
use crate::profile::{
    choose_connect_profile, listener_addresses_for_mode, profiles_view, spec_connect_profile,
    spec_listener_addresses, ClientProfile, ConnectionMode, ProfileView, Settings, SettingsView,
};
use crate::text::{
    chars_of, decimal, decimal_string, lemma_split_at_char_nonempty, opt_text, pieces_view,
    slice_chars, split_at_char, split_chars, string_of, trim, trim_chars, CharClass,
};

verus! {

/// Where the connection stands.
#[derive(Clone, Copy, Debug, PartialEq, Eq, Structural)]
pub enum ConnectionPhase {
    Disconnected,
    Connecting,
    Connected,
    Disconnecting,
    Error,
}

impl Default for ConnectionPhase {
    fn default() -> (p: Self)
        ensures
            p == ConnectionPhase::Disconnected,
    {
        ConnectionPhase::Disconnected
    }
}

/// A running client sidecar, described by plain values; the process handle
/// itself stays with the caller.
#[derive(Debug)]
pub struct ClientSession {
    pub pid: u32,
    pub profile_id: String,
    pub mode: ConnectionMode,
    pub socks_address: String,
    pub http_address: String,
    pub metrics_path: String,
    pub system_proxy_enabled: bool,
}

/// A running VPN tunnel sidecar.
#[derive(Debug)]
pub struct TunnelSession {
    pub pid: u32,
    pub interface_name: String,
}

/// The runtime state of the desktop client.
#[derive(Debug)]
pub struct RuntimeState {
    pub client: Option<ClientSession>,
    pub tunnel: Option<TunnelSession>,
    pub phase: ConnectionPhase,
    pub message: String,
}

impl Default for RuntimeState {
    fn default() -> (s: Self)
        ensures
            s.client is None,
            s.tunnel is None,
            s.phase == ConnectionPhase::Disconnected,
            s.message@ == Seq::<char>::empty(),
    {
        RuntimeState {
            client: None,
            tunnel: None,
            phase: ConnectionPhase::Disconnected,
            message: String::new(),
        }
    }
}

/// The state is consistent: a tunnel runs only beside a client, and the
/// phase is `Connected` exactly while a client runs.
pub open spec fn runtime_consistent(s: RuntimeState) -> bool {
    &&& (s.tunnel is Some ==> s.client is Some)
    &&& (s.client is Some <==> s.phase == ConnectionPhase::Connected)
}

/// What polling a sidecar process found.
#[derive(Debug)]
pub enum ProcessStatus {
    /// Still running.
    Running,
    /// Exited; the text of its exit status.
    Exited(String),
    /// The poll itself failed; the text of the error.
    Failed(String),
}

/// The outside steps that stopping the runtime asks for, in this order:
/// end the tunnel process, remove the Linux TUN routes, turn the system
/// proxy off, end the client process, and clear a stale system proxy.
#[derive(Clone, Copy, Debug, PartialEq, Eq, Structural)]
pub struct StopPlan {
    pub terminate_tunnel: bool,
    pub cleanup_tun_routes: bool,
    pub disable_system_proxy: bool,
    pub terminate_client: bool,
    pub cleanup_stale_proxy: bool,
}

pub open spec fn spec_stop_plan(s: RuntimeState, os: TargetOs) -> StopPlan {
    StopPlan {
        terminate_tunnel: s.tunnel is Some,
        cleanup_tun_routes: s.tunnel is Some && os == TargetOs::Linux,
        disable_system_proxy: match s.client {
            Some(c) => c.system_proxy_enabled,
            None => false,
        },
        terminate_client: s.client is Some,
        cleanup_stale_proxy: s.client is None,
    }
}

/// Stops whatever runs: the client and tunnel leave the state, and the
/// returned plan says which processes to end and what to clean up.
pub fn stop_runtime(state: &mut RuntimeState, os: TargetOs) -> (plan: StopPlan)
    ensures
        plan == spec_stop_plan(*old(state), os),
        final(state).client is None,
        final(state).tunnel is None,
        final(state).phase == old(state).phase,
        final(state).message == old(state).message,
{
    let tunnel = state.tunnel.take();
    let client = state.client.take();
    let linux = match os {
        TargetOs::Linux => true,
        _ => false,
    };
    let terminate_tunnel = tunnel.is_some();
    match client {
        Some(c) => StopPlan {
            terminate_tunnel,
            cleanup_tun_routes: terminate_tunnel && linux,
            disable_system_proxy: c.system_proxy_enabled,
            terminate_client: true,
            cleanup_stale_proxy: false,
        },
        None => StopPlan {
            terminate_tunnel,
            cleanup_tun_routes: terminate_tunnel && linux,
            disable_system_proxy: false,
            terminate_client: false,
            cleanup_stale_proxy: true,
        },
    }
}

fn joined(prefix: &str, detail: &str) -> (s: String)
    ensures
        s@ == prefix@ + detail@,
{
    let mut s = String::from_str(prefix);
    s.append(detail);
    s
}

/// The error a poll of the tunnel process reports, if it ended or could
/// not be polled.
pub open spec fn spec_tunnel_poll_error(status: ProcessStatus) -> Option<Seq<char>> {
    match status {
        ProcessStatus::Running => None,
        ProcessStatus::Exited(s) => Some("VPN sidecar exited: "@ + s@),
        ProcessStatus::Failed(e) => Some("VPN status failed: "@ + e@),
    }
}

/// The error a poll of the client process reports.
pub open spec fn spec_client_poll_error(status: ProcessStatus) -> Option<Seq<char>> {
    match status {
        ProcessStatus::Running => None,
        ProcessStatus::Exited(s) => Some("Skirk exited: "@ + s@),
        ProcessStatus::Failed(e) => Some("Skirk status failed: "@ + e@),
    }
}

/// The error a poll of the tunnel process reports, if any.
pub fn tunnel_poll_error(status: &ProcessStatus) -> (r: Option<String>)
    ensures
        opt_text(r) == spec_tunnel_poll_error(*status),
{
    match status {
        ProcessStatus::Running => None,
        ProcessStatus::Exited(s) => Some(joined("VPN sidecar exited: ", s.as_str())),
        ProcessStatus::Failed(e) => Some(joined("VPN status failed: ", e.as_str())),
    }
}

fn client_poll_error(status: &ProcessStatus) -> (r: Option<String>)
    ensures
        opt_text(r) == spec_client_poll_error(*status),
{
    match status {
        ProcessStatus::Running => None,
        ProcessStatus::Exited(s) => Some(joined("Skirk exited: ", s.as_str())),
        ProcessStatus::Failed(e) => Some(joined("Skirk status failed: ", e.as_str())),
    }
}

/// What bringing `before` up to date with the polls `tunnel_status` and
/// `client_status` gives: with no client, nothing runs and the phase is
/// `Disconnected` unless it shows an error. With a client, the tunnel (if
/// any) is polled first; when a poll finds a process ended or cannot poll
/// it, everything is stopped by `plan`, the phase becomes `Error` and the
/// message is the poll's; otherwise the connection is kept as it is.
pub open spec fn refreshed(
    before: RuntimeState,
    after: RuntimeState,
    plan: Option<StopPlan>,
    os: TargetOs,
    tunnel_status: ProcessStatus,
    client_status: ProcessStatus,
) -> bool {
    let tunnel_error = if before.tunnel is Some {
        spec_tunnel_poll_error(tunnel_status)
    } else {
        None
    };
    &&& before.client is None ==> {
        &&& plan is None
        &&& after.client is None
        &&& after.tunnel == before.tunnel
        &&& after.phase == (if before.phase == ConnectionPhase::Error {
            ConnectionPhase::Error
        } else {
            ConnectionPhase::Disconnected
        })
        &&& after.message == before.message
    }
    &&& before.client is Some && tunnel_error is Some ==> {
        &&& plan == Some(spec_stop_plan(before, os))
        &&& after.client is None
        &&& after.tunnel is None
        &&& after.phase == ConnectionPhase::Error
        &&& Some(after.message@) == tunnel_error
    }
    &&& before.client is Some && tunnel_error is None && spec_client_poll_error(client_status) is Some
        ==> {
        &&& plan == Some(spec_stop_plan(before, os))
        &&& after.client is None
        &&& after.tunnel is None
        &&& after.phase == ConnectionPhase::Error
        &&& Some(after.message@) == spec_client_poll_error(client_status)
    }
    &&& before.client is Some && tunnel_error is None && spec_client_poll_error(client_status) is None
        ==> {
        &&& plan is None
        &&& after.client == before.client
        &&& after.tunnel == before.tunnel
        &&& after.phase == ConnectionPhase::Connected
        &&& after.message == before.message
    }
}

/// Brings the state up to date with what polling the processes found. The
/// tunnel is polled first; `client_status` counts only when no tunnel runs
/// or the tunnel is still running (otherwise the caller need not poll the
/// client and may pass `Running`). When a process ended, everything is
/// stopped, the phase becomes `Error` with the poll's message, and the
/// returned plan says what to stop.
pub fn refresh_state(
    state: &mut RuntimeState,
    os: TargetOs,
    tunnel_status: &ProcessStatus,
    client_status: &ProcessStatus,
) -> (plan: Option<StopPlan>)
    ensures
        refreshed(*old(state), *final(state), plan, os, *tunnel_status, *client_status),
        runtime_consistent(*old(state)) ==> runtime_consistent(*final(state)),
{
    if state.client.is_none() {
        match state.phase {
            ConnectionPhase::Error => {},
            _ => {
                state.phase = ConnectionPhase::Disconnected;
            },
        }
        return None;
    }
    let tunnel_error = if state.tunnel.is_some() {
        tunnel_poll_error(tunnel_status)
    } else {
        None
    };
    if let Some(message) = tunnel_error {
        let plan = stop_runtime(state, os);
        state.phase = ConnectionPhase::Error;
        state.message = message;
        return Some(plan);
    }
    match client_poll_error(client_status) {
        Some(message) => {
            let plan = stop_runtime(state, os);
            state.phase = ConnectionPhase::Error;
            state.message = message;
            Some(plan)
        },
        None => {
            state.phase = ConnectionPhase::Connected;
            None
        },
    }
}

/// The message shown once connected in `mode`.
pub open spec fn spec_connected_message(mode: ConnectionMode) -> Seq<char> {
    match mode {
        ConnectionMode::Proxy => "Connected in local proxy mode"@,
        ConnectionMode::System => "Connected and Windows system proxy is enabled"@,
        ConnectionMode::Vpn => "Connected in VPN mode"@,
    }
}

pub fn connected_message(mode: ConnectionMode) -> (s: String)
    ensures
        s@ == spec_connected_message(mode),
{
    match mode {
        ConnectionMode::Proxy => String::from_str("Connected in local proxy mode"),
        ConnectionMode::System => String::from_str("Connected and Windows system proxy is enabled"),
        ConnectionMode::Vpn => String::from_str("Connected in VPN mode"),
    }
}

/// Marks the start of a connection attempt, before the client sidecar is
/// spawned.
pub fn begin_connect(state: &mut RuntimeState)
    ensures
        final(state).client == old(state).client,
        final(state).tunnel == old(state).tunnel,
        final(state).phase == ConnectionPhase::Connecting,
        final(state).message@ == "Starting Skirk sidecar"@,
        runtime_consistent(*old(state)) && old(state).client is None ==> runtime_consistent(
            *final(state),
        ),
{
    state.phase = ConnectionPhase::Connecting;
    state.message = String::from_str("Starting Skirk sidecar");
}

/// Records a failed connection attempt: unless a client already runs, the
/// phase becomes `Error` with `message`. The message is handed back.
pub fn mark_connect_error(state: &mut RuntimeState, message: String) -> (r: String)
    ensures
        r == message,
        final(state).client == old(state).client,
        final(state).tunnel == old(state).tunnel,
        old(state).client is None ==> final(state).phase == ConnectionPhase::Error
            && final(state).message == message,
        old(state).client is Some ==> final(state).phase == old(state).phase
            && final(state).message == old(state).message,
        runtime_consistent(*old(state)) ==> runtime_consistent(*final(state)),
{
    if state.client.is_none() {
        state.phase = ConnectionPhase::Error;
        state.message = message.clone();
    }
    message
}

/// Records a finished connection: the client (and, in VPN mode, the tunnel)
/// now run, and the phase is `Connected` with the mode's message.
pub fn complete_connect(state: &mut RuntimeState, client: ClientSession, tunnel: Option<TunnelSession>)
    ensures
        final(state).client == Some(client),
        final(state).tunnel == tunnel,
        final(state).phase == ConnectionPhase::Connected,
        final(state).message@ == spec_connected_message(client.mode),
        runtime_consistent(*final(state)),
{
    let message = connected_message(client.mode);
    state.client = Some(client);
    state.tunnel = tunnel;
    state.phase = ConnectionPhase::Connected;
    state.message = message;
}

/// Disconnects: everything is stopped and the phase is `Disconnected`.
pub fn disconnect(state: &mut RuntimeState, os: TargetOs) -> (plan: StopPlan)
    ensures
        plan == spec_stop_plan(*old(state), os),
        final(state).client is None,
        final(state).tunnel is None,
        final(state).phase == ConnectionPhase::Disconnected,
        final(state).message@ == "Disconnected"@,
        runtime_consistent(*final(state)),
{
    state.phase = ConnectionPhase::Disconnecting;
    let plan = stop_runtime(state, os);
    state.phase = ConnectionPhase::Disconnected;
    state.message = String::from_str("Disconnected");
    plan
}

/// The change that needs the client stopped first.
#[derive(Clone, Copy, Debug, PartialEq, Eq, Structural)]
pub enum IdleChange {
    Performance,
    Profile,
    Mode,
}

pub open spec fn spec_busy_message(change: IdleChange) -> Seq<char> {
    match change {
        IdleChange::Performance => "disconnect before changing performance settings"@,
        IdleChange::Profile => "disconnect before switching profiles"@,
        IdleChange::Mode => "disconnect before changing connection mode"@,
    }
}

/// Refuses `change` while a client runs.
pub fn require_disconnected(state: &RuntimeState, change: IdleChange) -> (r: Result<(), String>)
    ensures
        r is Ok <==> state.client is None,
        r matches Err(e) ==> e@ == spec_busy_message(change),
{
    if state.client.is_none() {
        return Ok(());
    }
    match change {
        IdleChange::Performance => Err(
            String::from_str("disconnect before changing performance settings"),
        ),
        IdleChange::Profile => Err(String::from_str("disconnect before switching profiles")),
        IdleChange::Mode => Err(String::from_str("disconnect before changing connection mode")),
    }
}

/// Why `mode` cannot be used here, if it cannot: the system proxy exists on
/// Windows only, and VPN mode needs a supported platform with its sidecar.
pub open spec fn spec_mode_error(
    mode: ConnectionMode,
    os: TargetOs,
    vpn_mode_supported: bool,
    has_tun_privileges: bool,
) -> Option<Seq<char>> {
    if mode == ConnectionMode::System && os != TargetOs::Windows {
        Some("system proxy mode is only available on Windows"@)
    } else if mode == ConnectionMode::Vpn && !vpn_mode_supported {
        Some(spec_vpn_unavailable_message(os, has_tun_privileges))
    } else {
        None
    }
}

/// Checks that `mode` can be used on this platform.
pub fn check_mode_available(
    mode: ConnectionMode,
    os: TargetOs,
    capabilities: &PlatformCapabilities,
    has_tun_privileges: bool,
) -> (r: Result<(), String>)
    ensures
        match r {
            Ok(()) => spec_mode_error(
                mode,
                os,
                capabilities.vpn_mode_supported,
                has_tun_privileges,
            ) is None,
            Err(e) => spec_mode_error(mode, os, capabilities.vpn_mode_supported, has_tun_privileges)
                == Some(e@),
        },
{
    let windows = match os {
        TargetOs::Windows => true,
        _ => false,
    };
    match mode {
        ConnectionMode::System => if !windows {
            return Err(String::from_str("system proxy mode is only available on Windows"));
        },
        ConnectionMode::Vpn => if !capabilities.vpn_mode_supported {
            return Err(vpn_unavailable_message(os, has_tun_privileges));
        },
        ConnectionMode::Proxy => {},
    }
    Ok(())
}

/// A line without the `\r` of a `\r\n` ending.
pub open spec fn strip_cr(l: Seq<char>) -> Seq<char> {
    if l.len() > 0 && l.last() == '\r' {
        l.drop_last()
    } else {
        l
    }
}

/// The lines of a text as `str::lines` yields them: cut at each `\n`, a
/// `\r` before the `\n` dropped, and no empty line after a final `\n`.
pub open spec fn text_lines(s: Seq<char>) -> Seq<Seq<char>> {
    let p = split_at_char(s, '\n');
    let head = p.drop_last().map_values(|l: Seq<char>| strip_cr(l));
    if p.last().len() == 0 {
        head
    } else {
        head.push(p.last())
    }
}

/// Lines joined with `\n` between them.
pub open spec fn join_lines(ls: Seq<Seq<char>>) -> Seq<char>
    decreases ls.len(),
{
    if ls.len() == 0 {
        Seq::empty()
    } else if ls.len() == 1 {
        ls[0]
    } else {
        join_lines(ls.drop_last()) + seq!['\n'] + ls.last()
    }
}

/// The last `limit` lines of a log, joined with `\n`.
pub open spec fn spec_log_tail(content: Seq<char>, limit: nat) -> Seq<char> {
    let ls = text_lines(content);
    if ls.len() > limit {
        join_lines(ls.skip(ls.len() - limit))
    } else {
        join_lines(ls)
    }
}

fn strip_cr_chars(l: Vec<char>) -> (r: Vec<char>)
    ensures
        r@ == strip_cr(l@),
{
    let mut l = l;
    if l.len() > 0 && l[l.len() - 1] == '\r' {
        l.pop();
    }
    l
}

/// The lines of `content`.
pub fn log_lines(content: &str) -> (r: Vec<Vec<char>>)
    ensures
        pieces_view(r@) == text_lines(content@),
{
    let v = chars_of(content);
    let pieces = split_chars(&v, '\n');
    proof {
        lemma_split_at_char_nonempty(v@, '\n');
    }
    let n = pieces.len();
    let mut r: Vec<Vec<char>> = Vec::new();
    let ghost p = split_at_char(content@, '\n');
    for i in 0..n - 1
        invariant
            n == pieces@.len(),
            n >= 1,
            p == pieces_view(pieces@),
            pieces_view(r@) == p.take(i as int).map_values(|l: Seq<char>| strip_cr(l)),
    {
        let line = slice_chars(&pieces[i], 0, pieces[i].len());
        assert(line@ =~= pieces@[i as int]@);
        assert(p[i as int] == pieces@[i as int]@);
        let ghost before = pieces_view(r@);
        r.push(strip_cr_chars(line));
        assert(pieces_view(r@) =~= before.push(strip_cr(p[i as int])));
        assert(p.take(i + 1).map_values(|l: Seq<char>| strip_cr(l)) =~= p.take(i as int).map_values(
            |l: Seq<char>| strip_cr(l),
        ).push(strip_cr(p[i as int])));
    }
    assert(p.take(n - 1) =~= p.drop_last());
    if pieces[n - 1].len() > 0 {
        let last = slice_chars(&pieces[n - 1], 0, pieces[n - 1].len());
        assert(last@ =~= p.last());
        r.push(last);
        assert(pieces_view(r@) =~= p.drop_last().map_values(|l: Seq<char>| strip_cr(l)).push(
            p.last(),
        ));
    }
    r
}

fn join_chars(ls: &Vec<Vec<char>>, from: usize) -> (r: Vec<char>)
    requires
        from <= ls.len(),
    ensures
        r@ == join_lines(pieces_view(ls@).skip(from as int)),
{
    let ghost all = pieces_view(ls@).skip(from as int);
    let mut out: Vec<char> = Vec::new();
    if from == ls.len() {
        assert(all.len() == 0);
        return out;
    }
    out = slice_chars(&ls[from], 0, ls[from].len());
    assert(all.take(1).drop_last() =~= Seq::<Seq<char>>::empty());
    assert(out@ == join_lines(all.take(1))) by {
        assert(all.take(1).len() == 1);
        assert(out@ =~= all[0]);
    }
    let mut i = from + 1;
    while i < ls.len()
        invariant
            from < i <= ls.len(),
            all == pieces_view(ls@).skip(from as int),
            out@ == join_lines(all.take(i - from)),
        decreases ls.len() - i,
    {
        out.push('\n');
        let ghost before = out@;
        let mut j: usize = 0;
        while j < ls[i].len()
            invariant
                i < ls.len(),
                j <= ls@[i as int]@.len(),
                out@ == before + ls@[i as int]@.take(j as int),
            decreases ls@[i as int]@.len() - j,
        {
            out.push(ls[i][j]);
            j = j + 1;
            assert(out@ =~= before + ls@[i as int]@.take(j as int));
        }
        assert(all.take(i + 1 - from).drop_last() =~= all.take(i - from));
        assert(all.take(i + 1 - from).last() == ls@[i as int]@);
        assert(ls@[i as int]@.take(j as int) =~= ls@[i as int]@);
        i = i + 1;
    }
    assert(all.take(i - from) =~= all);
    out
}

/// The last `limit` lines of a log's `content`, joined with `\n`.
pub fn log_tail(content: &str, limit: usize) -> (s: String)
    ensures
        s@ == spec_log_tail(content@, limit as nat),
{
    let ls = log_lines(content);
    let from = if ls.len() > limit {
        ls.len() - limit
    } else {
        0
    };
    let v = join_chars(&ls, from);
    proof {
        assert(pieces_view(ls@).skip(0) =~= pieces_view(ls@));
    }
    string_of(&v)
}

/// The last line of `ls` that holds more than whitespace, trimmed.
pub open spec fn last_nonblank(ls: Seq<Seq<char>>) -> Option<Seq<char>>
    decreases ls.len(),
{
    if ls.len() == 0 {
        None
    } else if trim(ls.last()).len() > 0 {
        Some(trim(ls.last()))
    } else {
        last_nonblank(ls.drop_last())
    }
}

/// A log line cut to 220 characters, with `...` when it was longer.
pub open spec fn shorten_line(l: Seq<char>) -> Seq<char> {
    if l.len() > 220 {
        l.take(220) + "..."@
    } else {
        l
    }
}

/// The last meaningful line among the last 24 lines of a log.
pub open spec fn spec_last_meaningful_log_line(content: Seq<char>) -> Option<Seq<char>> {
    match last_nonblank(text_lines(spec_log_tail(content, 24))) {
        Some(l) => Some(shorten_line(l)),
        None => None,
    }
}

/// The last meaningful line of a log's `content`, shortened for a message.
pub fn last_meaningful_log_line(content: &str) -> (r: Option<String>)
    ensures
        opt_text(r) == spec_last_meaningful_log_line(content@),
{
    let tail = log_tail(content, 24);
    let ls = log_lines(tail.as_str());
    let ghost all = pieces_view(ls@);
    let mut i = ls.len();
    assert(all.take(i as int) =~= all);
    while i > 0
        invariant
            i <= ls.len(),
            all == pieces_view(ls@),
            all == text_lines(spec_log_tail(content@, 24)),
            last_nonblank(all) == last_nonblank(all.take(i as int)),
        decreases i,
    {
        let line = trim_chars(&ls[i - 1], CharClass::Space);
        assert(all.take(i as int).last() == ls@[i - 1]@);
        if line.len() > 0 {
            let shown = if line.len() > 220 {
                let mut cut = slice_chars(&line, 0, 220);
                cut.push('.');
                cut.push('.');
                cut.push('.');
                cut
            } else {
                line
            };
            proof {
                reveal_strlit("...");
                assert(shown@ =~= shorten_line(trim(ls@[i - 1]@)));
            }
            return Some(string_of(&shown));
        }
        assert(all.take(i as int).drop_last() =~= all.take(i - 1));
        i = i - 1;
    }
    None
}

/// The message for a listener that could not be verified at startup, with
/// the probe's detail and the last meaningful log line when there are any.
pub open spec fn spec_startup_probe_error(
    label: Seq<char>,
    address: Seq<char>,
    detail: Option<Seq<char>>,
    content: Seq<char>,
) -> Seq<char> {
    "Skirk could not verify the local "@ + label + " listener at "@ + address
        + ". Skirk was stopped."@ + match detail {
        Some(d) => " "@ + d + "."@,
        None => Seq::empty(),
    } + match spec_last_meaningful_log_line(content) {
        Some(l) => " Last log: "@ + l + "."@,
        None => Seq::empty(),
    } + " Open Logs for full sidecar details."@
}

pub open spec fn opt_str(o: Option<&str>) -> Option<Seq<char>> {
    match o {
        Some(s) => Some(s@),
        None => None,
    }
}

/// The message for a listener that could not be verified at startup;
/// `log_content` is the client log.
pub fn startup_probe_error(label: &str, address: &str, detail: Option<&str>, log_content: &str) -> (s:
    String)
    ensures
        s@ == spec_startup_probe_error(label@, address@, opt_str(detail), log_content@),
{
    let mut message = String::from_str("Skirk could not verify the local ");
    message.append(label);
    message.append(" listener at ");
    message.append(address);
    message.append(". Skirk was stopped.");
    let ghost base = message@;
    match detail {
        Some(d) => {
            message.append(" ");
            message.append(d);
            message.append(".");
        },
        None => {},
    }
    let ghost with_detail = message@;
    match last_meaningful_log_line(log_content) {
        Some(line) => {
            message.append(" Last log: ");
            message.append(line.as_str());
            message.append(".");
        },
        None => {},
    }
    message.append(" Open Logs for full sidecar details.");
    proof {
        let d_part: Seq<char> = match opt_str(detail) {
            Some(d) => " "@ + d + "."@,
            None => Seq::empty(),
        };
        let l_part: Seq<char> = match spec_last_meaningful_log_line(log_content@) {
            Some(l) => " Last log: "@ + l + "."@,
            None => Seq::empty(),
        };
        assert(with_detail =~= base + d_part);
        assert(message@ =~= base + d_part + l_part + " Open Logs for full sidecar details."@);
    }
    message
}

/// What one step of waiting for a listener found.
#[derive(Debug)]
pub enum ProbeEvent {
    /// The listener answered.
    Reached,
    /// The wait ran out of time.
    DeadlinePassed,
    /// The listener did not answer yet; the sidecar process was polled.
    Polled(ProcessStatus),
}

/// What to do after one step of waiting for a listener.
#[derive(Debug)]
pub enum ProbeOutcome {
    /// The listener is up.
    Ready,
    /// Wait a little and probe again.
    Waiting,
    /// Give up with this message.
    Failed(String),
    /// Give up: the listener could not be verified. The message is
    /// `startup_probe_error` with this detail and the client log.
    Unverified(Option<String>),
}

/// The decision after one step of waiting for the `label` listener.
pub fn probe_outcome(label: &str, event: &ProbeEvent) -> (r: ProbeOutcome)
    ensures
        match event {
            ProbeEvent::Reached => r is Ready,
            ProbeEvent::DeadlinePassed => r matches ProbeOutcome::Unverified(d) && d is None,
            ProbeEvent::Polled(ProcessStatus::Running) => r is Waiting,
            ProbeEvent::Polled(ProcessStatus::Exited(status)) => r matches ProbeOutcome::Unverified(
                d,
            ) && opt_text(d) == Some("sidecar exited with "@ + status@),
            ProbeEvent::Polled(ProcessStatus::Failed(error)) => r matches ProbeOutcome::Failed(m)
                && m@ == "Skirk sidecar status check failed while waiting for "@ + label@ + ": "@
                + error@,
        },
{
    match event {
        ProbeEvent::Reached => ProbeOutcome::Ready,
        ProbeEvent::DeadlinePassed => ProbeOutcome::Unverified(None),
        ProbeEvent::Polled(ProcessStatus::Running) => ProbeOutcome::Waiting,
        ProbeEvent::Polled(ProcessStatus::Exited(status)) => ProbeOutcome::Unverified(
            Some(joined("sidecar exited with ", status.as_str())),
        ),
        ProbeEvent::Polled(ProcessStatus::Failed(error)) => {
            let mut m = String::from_str("Skirk sidecar status check failed while waiting for ");
            m.append(label);
            m.append(": ");
            m.append(error.as_str());
            ProbeOutcome::Failed(m)
        },
    }
}

/// Why a freshly started process is not running steadily, from one poll of
/// it and its log; `None` while it still runs.
pub fn process_start_error(status: &ProcessStatus, log_content: &str) -> (r: Option<String>)
    ensures
        match status {
            ProcessStatus::Running => r is None,
            ProcessStatus::Exited(s) => opt_text(r) == Some(
                "process exited early with "@ + s@ + "; log: "@ + spec_log_tail(log_content@, 120),
            ),
            ProcessStatus::Failed(e) => opt_text(r) == Some(
                "process status failed: "@ + e@ + "; log: "@ + spec_log_tail(log_content@, 120),
            ),
        },
{
    match status {
        ProcessStatus::Running => None,
        ProcessStatus::Exited(s) => {
            let mut m = joined("process exited early with ", s.as_str());
            m.append("; log: ");
            m.append(log_tail(log_content, 120).as_str());
            Some(m)
        },
        ProcessStatus::Failed(e) => {
            let mut m = joined("process status failed: ", e.as_str());
            m.append("; log: ");
            m.append(log_tail(log_content, 120).as_str());
            Some(m)
        },
    }
}

/// The message for a VPN sidecar that did not start, with the tail of its
/// log.
pub fn tunnel_start_failure(error: &str, log_content: &str) -> (s: String)
    ensures
        s@ == "VPN sidecar failed to start: "@ + error@ + "\n"@ + spec_log_tail(log_content@, 120),
{
    let mut m = joined("VPN sidecar failed to start: ", error);
    m.append("\n");
    m.append(log_tail(log_content, 120).as_str());
    m
}

/// Checks that a VPN tunnel can be started: a supported platform and TUN
/// privileges.
pub fn tunnel_preflight(os: TargetOs, has_tun_privileges: bool) -> (r: Result<(), String>)
    ensures
        match r {
            Ok(()) => vpn_platform(os) && has_tun_privileges,
            Err(e) => if !vpn_platform(os) {
                e@ == "VPN mode is only available on Windows and Linux"@
            } else {
                !has_tun_privileges && e@ == spec_vpn_admin_required_message(os)
            },
        },
{
    match os {
        TargetOs::Windows | TargetOs::Linux => {},
        _ => return Err(String::from_str("VPN mode is only available on Windows and Linux")),
    }
    if !has_tun_privileges {
        return Err(vpn_admin_required_message(os));
    }
    Ok(())
}

/// Everything a connection attempt decides before any process starts.
#[derive(Debug)]
pub struct ConnectPlan {
    pub profile: ClientProfile,
    pub mode: ConnectionMode,
    pub performance: ClientPerformanceSettings,
    pub socks_address: String,
    pub http_address: String,
    pub google_ip: String,
}

/// Why a connection cannot be planned, checked in this order: no profile,
/// settings out of range, the mode unavailable here, a Google IP that does
/// not parse.
pub open spec fn spec_connect_error(
    profiles: Seq<ProfileView>,
    settings: SettingsView,
    os: TargetOs,
    vpn_mode_supported: bool,
    has_tun_privileges: bool,
) -> Option<Seq<char>> {
    match spec_connect_profile(settings.selected_profile_id, profiles) {
        None => Some("no profile selected"@),
        Some(k) => match spec_normalize(profiles[k].performance) {
            Err(e) => Some(e),
            Ok(_) => match spec_mode_error(
                settings.connection_mode,
                os,
                vpn_mode_supported,
                has_tun_privileges,
            ) {
                Some(e) => Some(e),
                None => if spec_parse_ip(google_ip_input(profiles[k].google_ip)) is None {
                    Some("profile route.google_ip must be an IP address"@)
                } else {
                    None
                },
            },
        },
    }
}

/// Plans a connection: the profile to use (the selected one, else the
/// first), its settings resolved, the listener addresses for the mode and
/// the canonical Google control IP.
pub fn plan_connect(
    profiles: &Vec<ClientProfile>,
    settings: &Settings,
    os: TargetOs,
    capabilities: &PlatformCapabilities,
    has_tun_privileges: bool,
) -> (r: Result<ConnectPlan, String>)
    ensures
        match r {
            Ok(plan) => {
                let k = spec_connect_profile(settings@.selected_profile_id, profiles_view(profiles@))->0;
                let p = profiles@[k]@;
                &&& spec_connect_error(
                    profiles_view(profiles@),
                    settings@,
                    os,
                    capabilities.vpn_mode_supported,
                    has_tun_privileges,
                ) is None
                &&& plan.profile@ == p
                &&& plan.mode == settings.connection_mode
                &&& spec_normalize(p.performance) == Ok::<ClientPerformanceSettings, Seq<char>>(plan.performance)
                &&& (plan.socks_address@, plan.http_address@) == spec_listener_addresses(
                    p,
                    settings.connection_mode,
                )
                &&& plan.google_ip@ == spec_ip_text(spec_parse_ip(google_ip_input(p.google_ip))->0)
            },
            Err(e) => spec_connect_error(
                profiles_view(profiles@),
                settings@,
                os,
                capabilities.vpn_mode_supported,
                has_tun_privileges,
            ) == Some(e@),
        },
{
    let k = choose_connect_profile(profiles, settings)?;
    let profile = profiles[k].duplicate();
    assert(profiles_view(profiles@)[k as int] == profiles@[k as int]@);
    let mode = settings.connection_mode;
    let performance = match normalize_performance_settings(profile.performance) {
        Ok(p) => p,
        Err(e) => return Err(e),
    };
    check_mode_available(mode, os, capabilities, has_tun_privileges)?;
    let (socks_address, http_address) = listener_addresses_for_mode(&profile, mode);
    let google_ip = canonical_google_ip(profile.google_ip.as_str())?;
    Ok(ConnectPlan { profile, mode, performance, socks_address, http_address, google_ip })
}

/// The arguments that start the client sidecar for a planned connection.
pub open spec fn spec_client_args(
    profile: ProfileView,
    socks_address: Seq<char>,
    http_address: Seq<char>,
    google_ip: Seq<char>,
    performance: ClientPerformanceSettings,
    metrics_path: Seq<char>,
    parent_pid: u32,
) -> Seq<Seq<char>> {
    seq![
        "serve-client"@,
        "--config"@,
        profile.config_path,
        "--listen"@,
        socks_address,
        "--http-proxy-listen"@,
        http_address,
        "--client-id"@,
        profile.id,
        "--route-mode"@,
        "google_front_pinned"@,
        "--google-ip"@,
        google_ip,
    ] + if performance.burst_poll {
        seq![
            "--burst-poll"@,
            "--burst-poll-ms"@,
            decimal(performance.burst_poll_ms as nat),
            "--burst-poll-window-ms"@,
            decimal(performance.burst_poll_window_ms as nat),
        ]
    } else {
        seq!["--no-burst-poll"@]
    } + seq![
        "--poll-ms"@,
        decimal(performance.poll_ms as nat),
        "--upload-concurrency"@,
        decimal(performance.upload_concurrency as nat),
        "--download-concurrency"@,
        decimal(performance.download_concurrency as nat),
        "--metrics-path"@,
        metrics_path,
        "--watch-parent-pid"@,
        decimal(parent_pid as nat),
    ]
}

fn push_text(v: &mut Vec<String>, s: &str)
    ensures
        texts(final(v)@) == texts(old(v)@).push(s@),
{
    let ghost before = v@;
    v.push(String::from_str(s));
    assert(texts(v@) =~= texts(before).push(s@));
}

fn push_number(v: &mut Vec<String>, n: u32)
    ensures
        texts(final(v)@) == texts(old(v)@).push(decimal(n as nat)),
{
    let ghost before = v@;
    v.push(decimal_string(n as u128));
    assert(texts(v@) =~= texts(before).push(decimal(n as nat)));
}

/// The command-line arguments of the client sidecar; `metrics_path` is
/// where it writes its metrics and `parent_pid` the desktop process it
/// watches.
pub fn client_command_args(plan: &ConnectPlan, metrics_path: &str, parent_pid: u32) -> (r: Vec<
    String,
>)
    ensures
        texts(r@) == spec_client_args(
            plan.profile@,
            plan.socks_address@,
            plan.http_address@,
            plan.google_ip@,
            plan.performance,
            metrics_path@,
            parent_pid,
        ),
{
    let mut v: Vec<String> = Vec::new();
    push_text(&mut v, "serve-client");
    push_text(&mut v, "--config");
    push_text(&mut v, plan.profile.config_path.as_str());
    push_text(&mut v, "--listen");
    push_text(&mut v, plan.socks_address.as_str());
    push_text(&mut v, "--http-proxy-listen");
    push_text(&mut v, plan.http_address.as_str());
    push_text(&mut v, "--client-id");
    push_text(&mut v, plan.profile.id.as_str());
    push_text(&mut v, "--route-mode");
    push_text(&mut v, "google_front_pinned");
    push_text(&mut v, "--google-ip");
    push_text(&mut v, plan.google_ip.as_str());
    let ghost head = texts(v@);
    let performance = plan.performance;
    if performance.burst_poll {
        push_text(&mut v, "--burst-poll");
        push_text(&mut v, "--burst-poll-ms");
        push_number(&mut v, performance.burst_poll_ms as u32);
        push_text(&mut v, "--burst-poll-window-ms");
        push_number(&mut v, performance.burst_poll_window_ms as u32);
    } else {
        push_text(&mut v, "--no-burst-poll");
    }
    let ghost middle = texts(v@);
    push_text(&mut v, "--poll-ms");
    push_number(&mut v, performance.poll_ms as u32);
    push_text(&mut v, "--upload-concurrency");
    push_number(&mut v, performance.upload_concurrency as u32);
    push_text(&mut v, "--download-concurrency");
    push_number(&mut v, performance.download_concurrency as u32);
    push_text(&mut v, "--metrics-path");
    push_text(&mut v, metrics_path);
    push_text(&mut v, "--watch-parent-pid");
    push_number(&mut v, parent_pid);
    proof {
        reveal_strlit("serve-client");
        let p = plan.profile@;
        let burst: Seq<Seq<char>> = if performance.burst_poll {
            seq![
                "--burst-poll"@,
                "--burst-poll-ms"@,
                decimal(performance.burst_poll_ms as nat),
                "--burst-poll-window-ms"@,
                decimal(performance.burst_poll_window_ms as nat),
            ]
        } else {
            seq!["--no-burst-poll"@]
        };
        assert(head =~= seq![
            "serve-client"@,
            "--config"@,
            p.config_path,
            "--listen"@,
            plan.socks_address@,
            "--http-proxy-listen"@,
            plan.http_address@,
            "--client-id"@,
            p.id,
            "--route-mode"@,
            "google_front_pinned"@,
            "--google-ip"@,
            plan.google_ip@,
        ]);
        assert(middle =~= head + burst);
        assert(texts(v@) =~= head + burst + seq![
            "--poll-ms"@,
            decimal(performance.poll_ms as nat),
            "--upload-concurrency"@,
            decimal(performance.upload_concurrency as nat),
            "--download-concurrency"@,
            decimal(performance.download_concurrency as nat),
            "--metrics-path"@,
            metrics_path@,
            "--watch-parent-pid"@,
            decimal(parent_pid as nat),
        ]);
    }
    v
}

/// What the desktop UI shows of the connection.
#[derive(Debug)]
pub struct ConnectionStatus {
    pub phase: ConnectionPhase,
    pub mode: ConnectionMode,
    pub active_profile_id: Option<String>,
    pub pid: Option<u32>,
    pub tunnel_pid: Option<u32>,
    pub socks_address: Option<String>,
    pub http_address: Option<String>,
    pub lan_addresses: Vec<String>,
    pub lan_http_addresses: Vec<String>,
    pub system_proxy_enabled: bool,
    pub tunnel_active: bool,
    pub tunnel_interface_name: Option<String>,
    pub message: String,
}

fn copy_text(s: &String) -> (r: String)
    ensures
        r@ == s@,
{
    String::from_str(s.as_str())
}

/// The connection as shown: the running client's details when there is
/// one, otherwise the configured mode and nothing running. `lan_ips` are
/// this machine's LAN addresses, for listeners shared with the LAN.
pub fn connection_status(state: &RuntimeState, configured_mode: ConnectionMode, lan_ips: &Vec<String>) -> (r:
    ConnectionStatus)
    ensures
        r.phase == state.phase,
        r.message@ == state.message@,
        match state.client {
            Some(c) => {
                &&& r.mode == c.mode
                &&& opt_text(r.active_profile_id) == Some(c.profile_id@)
                &&& r.pid == Some(c.pid)
                &&& r.tunnel_pid == match state.tunnel {
                    Some(t) => Some(t.pid),
                    None => None::<u32>,
                }
                &&& opt_text(r.socks_address) == Some(c.socks_address@)
                &&& opt_text(r.http_address) == Some(c.http_address@)
                &&& texts(r.lan_addresses@) == spec_share_addresses(
                    c.socks_address@,
                    texts(lan_ips@),
                )
                &&& texts(r.lan_http_addresses@) == spec_share_addresses(
                    c.http_address@,
                    texts(lan_ips@),
                )
                &&& r.system_proxy_enabled == c.system_proxy_enabled
                &&& r.tunnel_active == state.tunnel is Some
                &&& opt_text(r.tunnel_interface_name) == match state.tunnel {
                    Some(t) => Some(t.interface_name@),
                    None => None::<Seq<char>>,
                }
            },
            None => {
                &&& r.mode == configured_mode
                &&& r.active_profile_id is None
                &&& r.pid is None
                &&& r.tunnel_pid is None
                &&& r.socks_address is None
                &&& r.http_address is None
                &&& r.lan_addresses@.len() == 0
                &&& r.lan_http_addresses@.len() == 0
                &&& !r.system_proxy_enabled
                &&& !r.tunnel_active
                &&& r.tunnel_interface_name is None
            },
        },
{
    match &state.client {
        Some(c) => {
            let (tunnel_pid, tunnel_interface_name) = match &state.tunnel {
                Some(t) => (Some(t.pid), Some(copy_text(&t.interface_name))),
                None => (None, None),
            };
            ConnectionStatus {
                phase: state.phase,
                mode: c.mode,
                active_profile_id: Some(copy_text(&c.profile_id)),
                pid: Some(c.pid),
                tunnel_pid,
                socks_address: Some(copy_text(&c.socks_address)),
                http_address: Some(copy_text(&c.http_address)),
                lan_addresses: share_addresses(c.socks_address.as_str(), lan_ips),
                lan_http_addresses: share_addresses(c.http_address.as_str(), lan_ips),
                system_proxy_enabled: c.system_proxy_enabled,
                tunnel_active: state.tunnel.is_some(),
                tunnel_interface_name,
                message: copy_text(&state.message),
            }
        },
        None => ConnectionStatus {
            phase: state.phase,
            mode: configured_mode,
            active_profile_id: None,
            pid: None,
            tunnel_pid: None,
            socks_address: None,
            http_address: None,
            lan_addresses: Vec::new(),
            lan_http_addresses: Vec::new(),
            system_proxy_enabled: false,
            tunnel_active: false,
            tunnel_interface_name: None,
            message: copy_text(&state.message),
        },
    }
}

/// Rule priorities of the routing rules that the Linux TUN sidecar installs.
pub open spec fn spec_tun_rule_prefs() -> Seq<Seq<char>> {
    seq!["9000"@, "9001"@, "9002"@, "9003"@, "9010"@, "32768"@]
}

/// How many times the rules of one priority are deleted at most.
pub const TUN_RULE_DELETE_LIMIT: u32 = 8;

/// Progress through the Linux TUN cleanup: which step runs next (one per
/// rule priority, then the route flush, then the interface removal), and
/// how many rules of the current priority were deleted so far.
#[derive(Clone, Copy, Debug, PartialEq, Eq, Structural)]
pub struct TunCleanup {
    pub step: usize,
    pub deleted: u32,
}

/// The cleanup before its first command.
pub fn tun_cleanup_start() -> (c: TunCleanup)
    ensures
        c == (TunCleanup { step: 0, deleted: 0 }),
{
    TunCleanup { step: 0, deleted: 0 }
}

/// The `ip` arguments of the cleanup's next command; `None` when done.
pub open spec fn spec_tun_cleanup_command(c: TunCleanup, os: TargetOs) -> Option<Seq<Seq<char>>> {
    if c.step < 6 {
        Some(seq!["rule"@, "del"@, "pref"@, spec_tun_rule_prefs()[c.step as int]])
    } else if c.step == 6 {
        Some(seq!["route"@, "flush"@, "table"@, "2022"@])
    } else if c.step == 7 {
        Some(seq!["link"@, "del"@, spec_tunnel_interface_name(os)])
    } else {
        None
    }
}

fn rule_pref(k: usize) -> (s: &'static str)
    requires
        k < 6,
    ensures
        s@ == spec_tun_rule_prefs()[k as int],
{
    if k == 0 {
        "9000"
    } else if k == 1 {
        "9001"
    } else if k == 2 {
        "9002"
    } else if k == 3 {
        "9003"
    } else if k == 4 {
        "9010"
    } else {
        "32768"
    }
}

fn strs(items: &[&str]) -> (v: Vec<String>)
    ensures
        v@.len() == items@.len(),
        forall|i: int| 0 <= i < items@.len() ==> #[trigger] v@[i]@ == items@[i]@,
{
    let mut v: Vec<String> = Vec::new();
    for i in 0..items.len()
        invariant
            v@.len() == i,
            forall|j: int| 0 <= j < i ==> #[trigger] v@[j]@ == items@[j]@,
    {
        v.push(String::from_str(items[i]));
    }
    v
}

/// The `ip` arguments of the cleanup's next command, if any is left.
pub fn tun_cleanup_command(c: &TunCleanup, os: TargetOs) -> (r: Option<Vec<String>>)
    ensures
        match r {
            Some(v) => spec_tun_cleanup_command(*c, os) == Some(texts(v@)),
            None => spec_tun_cleanup_command(*c, os) is None,
        },
{
    if c.step < 6 {
        let v = strs(&["rule", "del", "pref", rule_pref(c.step)]);
        assert(texts(v@) =~= seq!["rule"@, "del"@, "pref"@, spec_tun_rule_prefs()[c.step as int]]);
        Some(v)
    } else if c.step == 6 {
        let v = strs(&["route", "flush", "table", "2022"]);
        assert(texts(v@) =~= seq!["route"@, "flush"@, "table"@, "2022"@]);
        Some(v)
    } else if c.step == 7 {
        let name = tunnel_interface_name(os);
        let v = strs(&["link", "del", name.as_str()]);
        assert(texts(v@) =~= seq!["link"@, "del"@, spec_tunnel_interface_name(os)]);
        Some(v)
    } else {
        None
    }
}

/// The cleanup after its current command `succeeded` or not: the rules of
/// one priority are deleted again until a deletion fails or the limit is
/// reached; every other step runs once; a finished cleanup stays finished.
pub open spec fn spec_tun_cleanup_advance(c: TunCleanup, succeeded: bool) -> TunCleanup {
    if c.step < 6 && succeeded && c.deleted + 1 < TUN_RULE_DELETE_LIMIT {
        TunCleanup { step: c.step, deleted: (c.deleted + 1) as u32 }
    } else if c.step < 8 {
        TunCleanup { step: (c.step + 1) as usize, deleted: 0 }
    } else {
        c
    }
}

pub fn tun_cleanup_advance(c: TunCleanup, succeeded: bool) -> (r: TunCleanup)
    ensures
        r == spec_tun_cleanup_advance(c, succeeded),
{
    if c.step < 6 && succeeded && c.deleted < TUN_RULE_DELETE_LIMIT - 1 {
        TunCleanup { step: c.step, deleted: c.deleted + 1 }
    } else if c.step < 8 {
        TunCleanup { step: c.step + 1, deleted: 0 }
    } else {
        c
    }
}

/// How many commands the cleanup can still run at most.
pub open spec fn tun_cleanup_budget(c: TunCleanup) -> int {
    if c.step >= 8 {
        0
    } else if c.step >= 6 {
        8 - c.step
    } else {
        (6 - c.step) * 8 - c.deleted + 2
    }
}

/// The TUN cleanup ends: it starts with a budget of 50 commands, each
/// command that runs uses up at least one, and a cleanup with none left
/// has no command to run. Every rule priority gets a first deletion.
pub proof fn lemma_tun_cleanup_ends(c: TunCleanup, succeeded: bool)
    requires
        c.deleted < TUN_RULE_DELETE_LIMIT,
    ensures
        tun_cleanup_budget(TunCleanup { step: 0, deleted: 0 }) == 50,
        tun_cleanup_budget(c) >= 0,
        spec_tun_cleanup_advance(c, succeeded).deleted < TUN_RULE_DELETE_LIMIT,
        spec_tun_cleanup_command(c, TargetOs::Linux) is Some ==> tun_cleanup_budget(
            spec_tun_cleanup_advance(c, succeeded),
        ) < tun_cleanup_budget(c),
        spec_tun_cleanup_command(c, TargetOs::Linux) is None <==> tun_cleanup_budget(c) == 0,
        c.step < 6 && !succeeded ==> spec_tun_cleanup_advance(c, succeeded) == (TunCleanup {
            step: (c.step + 1) as usize,
            deleted: 0,
        }),
{
}

/// Disconnecting stops exactly what connecting started: the client, the
/// tunnel when one was started (with its Linux routes), and the system
/// proxy when it was turned on.
pub proof fn lemma_stop_undoes_connect(s: RuntimeState, os: TargetOs)
    requires
        s.client is Some,
    ensures
        spec_stop_plan(s, os) == (StopPlan {
            terminate_tunnel: s.tunnel is Some,
            cleanup_tun_routes: s.tunnel is Some && os == TargetOs::Linux,
            disable_system_proxy: s.client->0.system_proxy_enabled,
            terminate_client: true,
            cleanup_stale_proxy: false,
        }),
{
}

/// Where a connection attempt stands.
#[derive(Clone, Copy, Debug, PartialEq, Eq, Structural)]
pub enum ConnectStage {
    /// The client sidecar is being spawned.
    StartingClient,
    /// The client's SOCKS and HTTP listeners are being probed.
    ProbingListeners,
    /// The VPN tunnel sidecar is being started.
    StartingTunnel,
    /// The Windows system proxy is being turned on.
    EnablingSystemProxy,
    /// The attempt is over.
    Done,
}

/// A connection attempt: its plan, where the client writes its metrics,
/// how far it got, and the client process it started, if any.
#[derive(Debug)]
pub struct ConnectAttempt {
    pub plan: ConnectPlan,
    pub metrics_path: String,
    pub stage: ConnectStage,
    pub client_pid: Option<u32>,
}

/// What the caller found when it did what the attempt asked for.
#[derive(Debug)]
pub enum ConnectEvent {
    /// The client sidecar runs, with this process id.
    ClientStarted(u32),
    /// Spawning the client sidecar failed with this error.
    ClientFailed(String),
    /// Both listeners answered.
    ListenersReady,
    /// A listener could not be verified; the message says why.
    ListenerFailed(String),
    /// The tunnel sidecar runs.
    TunnelStarted(TunnelSession),
    /// The tunnel could not be started and no tunnel process is left.
    TunnelNotStarted(String),
    /// A tunnel process was started but did not keep running.
    TunnelStartFailed(String),
    /// The system proxy is on.
    SystemProxyEnabled,
    /// The system proxy could not be turned on.
    SystemProxyFailed(String),
}

/// What a connection attempt asks for next.
#[derive(Debug)]
pub enum ConnectAction {
    ProbeListeners,
    StartTunnel,
    EnableSystemProxy,
    /// The connection is up and recorded in the state.
    Connected,
    /// The attempt failed: end the processes named, and report `message`.
    Abort { terminate_client: bool, terminate_tunnel: bool, message: String },
}

/// The attempt's parts agree: a client runs from the listener probe on, the
/// tunnel is started only in VPN mode and the system proxy only in system
/// mode.
pub open spec fn attempt_consistent(a: ConnectAttempt) -> bool {
    &&& (a.stage == ConnectStage::StartingClient ==> a.client_pid is None)
    &&& (a.stage == ConnectStage::ProbingListeners || a.stage == ConnectStage::StartingTunnel
        || a.stage == ConnectStage::EnablingSystemProxy ==> a.client_pid is Some)
    &&& (a.stage == ConnectStage::StartingTunnel ==> a.plan.mode == ConnectionMode::Vpn)
    &&& (a.stage == ConnectStage::EnablingSystemProxy ==> a.plan.mode == ConnectionMode::System)
}

/// `event` is an answer to what the attempt asked for at `stage`.
pub open spec fn event_fits(stage: ConnectStage, event: ConnectEvent) -> bool {
    match stage {
        ConnectStage::StartingClient => event is ClientStarted || event is ClientFailed,
        ConnectStage::ProbingListeners => event is ListenersReady || event is ListenerFailed,
        ConnectStage::StartingTunnel => event is TunnelStarted || event is TunnelNotStarted
            || event is TunnelStartFailed,
        ConnectStage::EnablingSystemProxy => event is SystemProxyEnabled
            || event is SystemProxyFailed,
        ConnectStage::Done => false,
    }
}

/// The recorded client is the one the attempt started, as planned: its
/// profile, mode and listeners, with the system proxy on exactly in system
/// mode.
pub open spec fn session_matches(c: ClientSession, a: ConnectAttempt) -> bool {
    &&& a.client_pid == Some(c.pid)
    &&& c.profile_id@ == a.plan.profile.id@
    &&& c.mode == a.plan.mode
    &&& c.socks_address@ == a.plan.socks_address@
    &&& c.http_address@ == a.plan.http_address@
    &&& c.metrics_path@ == a.metrics_path@
    &&& c.system_proxy_enabled == (a.plan.mode == ConnectionMode::System)
}

/// `s` records the connection that attempt `a` made: its client, a tunnel
/// exactly in VPN mode, and the connected phase and message.
pub open spec fn connected_by(s: RuntimeState, a: ConnectAttempt) -> bool {
    &&& s.client matches Some(c) && session_matches(c, a)
    &&& (s.tunnel is Some <==> a.plan.mode == ConnectionMode::Vpn)
    &&& s.phase == ConnectionPhase::Connected
    &&& s.message@ == spec_connected_message(a.plan.mode)
}

/// A failed attempt changed no process records and, unless a client
/// already runs, left the phase `Error` with `message`.
pub open spec fn aborted_with(before: RuntimeState, after: RuntimeState, message: Seq<char>) -> bool {
    &&& after.client == before.client
    &&& after.tunnel == before.tunnel
    &&& (before.client is None ==> after.phase == ConnectionPhase::Error && after.message@ == message)
    &&& (before.client is Some ==> after.phase == before.phase && after.message == before.message)
}

/// Starts a connection attempt for `plan`: the phase becomes `Connecting`
/// and the caller spawns the client sidecar next.
pub fn start_connect(state: &mut RuntimeState, plan: ConnectPlan, metrics_path: String) -> (a:
    ConnectAttempt)
    ensures
        a.plan == plan,
        a.metrics_path == metrics_path,
        a.stage == ConnectStage::StartingClient,
        a.client_pid is None,
        attempt_consistent(a),
        final(state).client == old(state).client,
        final(state).tunnel == old(state).tunnel,
        final(state).phase == ConnectionPhase::Connecting,
        final(state).message@ == "Starting Skirk sidecar"@,
{
    begin_connect(state);
    ConnectAttempt { plan, metrics_path, stage: ConnectStage::StartingClient, client_pid: None }
}

/// Whether the attempt can take `event` now.
pub fn accepts(attempt: &ConnectAttempt, event: &ConnectEvent) -> (b: bool)
    ensures
        b == (attempt_consistent(*attempt) && event_fits(attempt.stage, *event)),
{
    let consistent = match attempt.stage {
        ConnectStage::StartingClient => attempt.client_pid.is_none(),
        ConnectStage::ProbingListeners => attempt.client_pid.is_some(),
        ConnectStage::StartingTunnel => attempt.client_pid.is_some() && match attempt.plan.mode {
            ConnectionMode::Vpn => true,
            _ => false,
        },
        ConnectStage::EnablingSystemProxy => attempt.client_pid.is_some()
            && match attempt.plan.mode {
            ConnectionMode::System => true,
            _ => false,
        },
        ConnectStage::Done => true,
    };
    let fits = match attempt.stage {
        ConnectStage::StartingClient => match event {
            ConnectEvent::ClientStarted(_) | ConnectEvent::ClientFailed(_) => true,
            _ => false,
        },
        ConnectStage::ProbingListeners => match event {
            ConnectEvent::ListenersReady | ConnectEvent::ListenerFailed(_) => true,
            _ => false,
        },
        ConnectStage::StartingTunnel => match event {
            ConnectEvent::TunnelStarted(_) | ConnectEvent::TunnelNotStarted(_)
            | ConnectEvent::TunnelStartFailed(_) => true,
            _ => false,
        },
        ConnectStage::EnablingSystemProxy => match event {
            ConnectEvent::SystemProxyEnabled | ConnectEvent::SystemProxyFailed(_) => true,
            _ => false,
        },
        ConnectStage::Done => false,
    };
    consistent && fits
}

fn finish_attempt(
    state: &mut RuntimeState,
    attempt: ConnectAttempt,
    tunnel: Option<TunnelSession>,
) -> (r: (ConnectAttempt, ConnectAction))
    requires
        attempt.client_pid is Some,
        tunnel is Some <==> attempt.plan.mode == ConnectionMode::Vpn,
    ensures
        r.0 == (ConnectAttempt { stage: ConnectStage::Done, ..attempt }),
        r.1 is Connected,
        connected_by(*final(state), attempt),
        final(state).tunnel == tunnel,
{
    let pid = match attempt.client_pid {
        Some(p) => p,
        None => 0,
    };
    let system_proxy_enabled = match attempt.plan.mode {
        ConnectionMode::System => true,
        _ => false,
    };
    let session = ClientSession {
        pid,
        profile_id: copy_text(&attempt.plan.profile.id),
        mode: attempt.plan.mode,
        socks_address: copy_text(&attempt.plan.socks_address),
        http_address: copy_text(&attempt.plan.http_address),
        metrics_path: copy_text(&attempt.metrics_path),
        system_proxy_enabled,
    };
    complete_connect(state, session, tunnel);
    (ConnectAttempt { stage: ConnectStage::Done, ..attempt }, ConnectAction::Connected)
}

fn abort_attempt(
    state: &mut RuntimeState,
    attempt: ConnectAttempt,
    terminate_tunnel: bool,
    message: String,
) -> (r: (ConnectAttempt, ConnectAction))
    ensures
        r.0 == (ConnectAttempt { stage: ConnectStage::Done, ..attempt }),
        r.1 matches ConnectAction::Abort { terminate_client, terminate_tunnel: t, message: m } && (
        terminate_client == attempt.client_pid is Some) && t == terminate_tunnel && m == message,
        aborted_with(*old(state), *final(state), message@),
{
    let message = mark_connect_error(state, message);
    let terminate_client = attempt.client_pid.is_some();
    (
        ConnectAttempt { stage: ConnectStage::Done, ..attempt },
        ConnectAction::Abort { terminate_client, terminate_tunnel, message },
    )
}

/// Takes one step of a connection attempt: what the caller found for the
/// last action (`event`) gives the next action. The listeners are probed
/// once the client runs; then the tunnel is started exactly in VPN mode and
/// the system proxy turned on exactly in system mode; then the connection
/// is recorded. On any failure the attempt ends: every process it started
/// is to be ended, and the state shows the error.
pub fn connect_step(state: &mut RuntimeState, attempt: ConnectAttempt, event: ConnectEvent) -> (r: (
    ConnectAttempt,
    ConnectAction,
))
    requires
        attempt_consistent(attempt),
        event_fits(attempt.stage, event),
    ensures
        attempt_consistent(r.0),
        r.0.plan == attempt.plan,
        r.0.metrics_path == attempt.metrics_path,
        r.1 is Connected ==> connected_by(*final(state), r.0),
        r.1 is Abort ==> r.0.stage == ConnectStage::Done,
        r.1 matches ConnectAction::Abort { terminate_client, .. } ==> terminate_client
            == r.0.client_pid is Some,
        !(r.1 is Connected) && !(r.1 is Abort) ==> *final(state) == *old(state),
        match event {
            ConnectEvent::ClientStarted(pid) => r.0.client_pid == Some(pid) && r.0.stage
                == ConnectStage::ProbingListeners && r.1 is ProbeListeners,
            ConnectEvent::ClientFailed(e) => r.1 matches ConnectAction::Abort {
                terminate_client,
                terminate_tunnel,
                message,
            } && !terminate_client && !terminate_tunnel && message@ == "failed to start skirk: "@
                + e@ && aborted_with(*old(state), *final(state), message@),
            ConnectEvent::ListenersReady => r.0.client_pid == attempt.client_pid && match attempt.plan.mode {
                ConnectionMode::Vpn => r.1 is StartTunnel && r.0.stage
                    == ConnectStage::StartingTunnel,
                ConnectionMode::System => r.1 is EnableSystemProxy && r.0.stage
                    == ConnectStage::EnablingSystemProxy,
                ConnectionMode::Proxy => r.1 is Connected && final(state).tunnel is None,
            },
            ConnectEvent::ListenerFailed(m) => r.1 matches ConnectAction::Abort {
                terminate_client,
                terminate_tunnel,
                message,
            } && terminate_client && !terminate_tunnel && message == m && aborted_with(
                *old(state),
                *final(state),
                m@,
            ),
            ConnectEvent::TunnelStarted(t) => r.1 is Connected && final(state).tunnel == Some(t),
            ConnectEvent::TunnelNotStarted(m) => r.1 matches ConnectAction::Abort {
                terminate_client,
                terminate_tunnel,
                message,
            } && terminate_client && !terminate_tunnel && message == m && aborted_with(
                *old(state),
                *final(state),
                m@,
            ),
            ConnectEvent::TunnelStartFailed(m) => r.1 matches ConnectAction::Abort {
                terminate_client,
                terminate_tunnel,
                message,
            } && terminate_client && terminate_tunnel && message == m && aborted_with(
                *old(state),
                *final(state),
                m@,
            ),
            ConnectEvent::SystemProxyEnabled => r.1 is Connected,
            ConnectEvent::SystemProxyFailed(m) => r.1 matches ConnectAction::Abort {
                terminate_client,
                terminate_tunnel,
                message,
            } && terminate_client && !terminate_tunnel && message == m && aborted_with(
                *old(state),
                *final(state),
                m@,
            ),
        },
{
    match event {
        ConnectEvent::ClientStarted(pid) => (
            ConnectAttempt {
                stage: ConnectStage::ProbingListeners,
                client_pid: Some(pid),
                ..attempt
            },
            ConnectAction::ProbeListeners,
        ),
        ConnectEvent::ClientFailed(e) => {
            let message = joined("failed to start skirk: ", e.as_str());
            abort_attempt(state, attempt, false, message)
        },
        ConnectEvent::ListenersReady => match attempt.plan.mode {
            ConnectionMode::Vpn => (
                ConnectAttempt { stage: ConnectStage::StartingTunnel, ..attempt },
                ConnectAction::StartTunnel,
            ),
            ConnectionMode::System => (
                ConnectAttempt { stage: ConnectStage::EnablingSystemProxy, ..attempt },
                ConnectAction::EnableSystemProxy,
            ),
            ConnectionMode::Proxy => finish_attempt(state, attempt, None),
        },
        ConnectEvent::ListenerFailed(m) => abort_attempt(state, attempt, false, m),
        ConnectEvent::TunnelStarted(t) => finish_attempt(state, attempt, Some(t)),
        ConnectEvent::TunnelNotStarted(m) => abort_attempt(state, attempt, false, m),
        ConnectEvent::TunnelStartFailed(m) => abort_attempt(state, attempt, true, m),
        ConnectEvent::SystemProxyEnabled => finish_attempt(state, attempt, None),
        ConnectEvent::SystemProxyFailed(m) => abort_attempt(state, attempt, false, m),
    }
}

/// Brings the state up to date before connecting, as `refresh_state`
/// does, and tells whether a client still runs, in which case there is
/// nothing to connect. A connection whose processes are still running is
/// kept as it is, so connecting again changes nothing; one whose client or
/// tunnel ended is stopped by the returned plan and a new one may start.
pub fn connect_gate(
    state: &mut RuntimeState,
    os: TargetOs,
    tunnel_status: &ProcessStatus,
    client_status: &ProcessStatus,
) -> (r: (Option<StopPlan>, bool))
    ensures
        refreshed(*old(state), *final(state), r.0, os, *tunnel_status, *client_status),
        r.1 == final(state).client is Some,
        old(state).client is Some && (old(state).tunnel is None || spec_tunnel_poll_error(
            *tunnel_status,
        ) is None) && spec_client_poll_error(*client_status) is None ==> {
            &&& r.0 is None
            &&& r.1
            &&& final(state).client == old(state).client
            &&& final(state).tunnel == old(state).tunnel
            &&& final(state).phase == ConnectionPhase::Connected
            &&& final(state).message == old(state).message
        },
        runtime_consistent(*old(state)) ==> runtime_consistent(*final(state)),
{
    let plan = refresh_state(state, os, tunnel_status, client_status);
    let running = state.client.is_some();
    (plan, running)
}

} // verus!
