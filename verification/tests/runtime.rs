use skirk_desktop::performance::{default_performance_settings, PerformancePreset};
use skirk_desktop::platform::{platform_capabilities, TargetOs};
use skirk_desktop::profile::{ClientProfile, ConnectionMode, Settings};
use skirk_desktop::runtime::{
    accepts, connect_gate, connect_step, start_connect, ConnectAction, ConnectAttempt, ConnectEvent, ConnectPlan,
    ConnectStage,
    begin_connect, check_mode_available, client_command_args, complete_connect,
    connected_message, connection_status, disconnect, last_meaningful_log_line, log_lines,
    log_tail, mark_connect_error, plan_connect, probe_outcome, process_start_error,
    refresh_state, require_disconnected, startup_probe_error, stop_runtime, tun_cleanup_advance,
    tun_cleanup_command, tun_cleanup_start, tunnel_poll_error, tunnel_preflight,
    tunnel_start_failure, ClientSession, ConnectionPhase, IdleChange, ProbeEvent, ProbeOutcome,
    ProcessStatus, RuntimeState, StopPlan, TunnelSession,
};

fn client(mode: ConnectionMode, system_proxy_enabled: bool) -> ClientSession {
    ClientSession {
        pid: 4242,
        profile_id: "profile-1".into(),
        mode,
        socks_address: "0.0.0.0:18080".into(),
        http_address: "127.0.0.1:18081".into(),
        metrics_path: "/run/metrics.json".into(),
        system_proxy_enabled,
    }
}

fn tunnel() -> TunnelSession {
    TunnelSession { pid: 77, interface_name: "skirk-tun0".into() }
}

fn connected(mode: ConnectionMode, with_tunnel: bool) -> RuntimeState {
    let mut state = RuntimeState::default();
    complete_connect(&mut state, client(mode, false), if with_tunnel { Some(tunnel()) } else { None });
    state
}

#[test]
fn startup_probe_error_does_not_dump_log_tail() {
    let log = "old line\nskirk client SOCKS5 listening on 127.0.0.1:18080\nanother detailed line\n";
    let message = startup_probe_error("SOCKS", "127.0.0.1:18080", None, log);
    assert!(message.contains("Open Logs for full sidecar details"));
    assert!(!message.contains("old line"));
    assert!(!message.contains("skirk client SOCKS5 listening"));
}

#[test]
fn startup_probe_error_exact_text() {
    let message = startup_probe_error(
        "HTTP proxy",
        "127.0.0.1:18081",
        Some("sidecar exited with exit status: 1"),
        "first\n  last words  \n\n   \n",
    );
    assert_eq!(
        message,
        "Skirk could not verify the local HTTP proxy listener at 127.0.0.1:18081. Skirk was stopped. sidecar exited with exit status: 1. Last log: last words. Open Logs for full sidecar details."
    );
    assert_eq!(
        startup_probe_error("SOCKS", "a:1", None, ""),
        "Skirk could not verify the local SOCKS listener at a:1. Skirk was stopped. Open Logs for full sidecar details."
    );
}

#[test]
fn log_lines_follow_str_lines() {
    for text in ["", "a", "a\n", "a\r\nb", "a\n\nb\n", "\n", "x\r", "a\r\r\n"] {
        let ours: Vec<String> = log_lines(text).into_iter().map(|l| l.into_iter().collect()).collect();
        let std: Vec<String> = text.lines().map(String::from).collect();
        assert_eq!(ours, std, "{text:?}");
    }
}

#[test]
fn log_tail_keeps_last_lines() {
    assert_eq!(log_tail("1\n2\n3\n4\n", 2), "3\n4");
    assert_eq!(log_tail("1\r\n2\n", 5), "1\n2");
    assert_eq!(log_tail("", 3), "");
    assert_eq!(log_tail("a\nb", 0), "");
}

#[test]
fn meaningful_line_is_trimmed_and_shortened() {
    assert_eq!(last_meaningful_log_line("a\n  b \n \n").as_deref(), Some("b"));
    assert_eq!(last_meaningful_log_line(" \n\t\n"), None);
    let long = "x".repeat(230);
    let shortened = last_meaningful_log_line(&long).expect("line");
    assert_eq!(shortened, format!("{}...", "x".repeat(220)));
    let exact = "y".repeat(220);
    assert_eq!(last_meaningful_log_line(&exact).as_deref(), Some(exact.as_str()));
    let many: String = (0..30).map(|i| format!("line {i}\n")).collect();
    assert_eq!(last_meaningful_log_line(&many).as_deref(), Some("line 29"));
    let old_only: String = std::iter::once("meaningful\n".to_string())
        .chain((0..24).map(|_| "   \n".to_string()))
        .collect();
    assert_eq!(last_meaningful_log_line(&old_only), None);
}

#[test]
fn refresh_without_client_resets_phase_unless_error() {
    let mut state = RuntimeState::default();
    begin_connect(&mut state);
    assert_eq!(state.phase, ConnectionPhase::Connecting);
    assert_eq!(state.message, "Starting Skirk sidecar");
    let plan = refresh_state(&mut state, TargetOs::Linux, &ProcessStatus::Running, &ProcessStatus::Running);
    assert_eq!(plan, None);
    assert_eq!(state.phase, ConnectionPhase::Disconnected);
    let message = mark_connect_error(&mut state, "failed to start skirk: boom".into());
    assert_eq!(message, "failed to start skirk: boom");
    assert_eq!(state.phase, ConnectionPhase::Error);
    refresh_state(&mut state, TargetOs::Linux, &ProcessStatus::Running, &ProcessStatus::Running);
    assert_eq!(state.phase, ConnectionPhase::Error);
    assert_eq!(state.message, "failed to start skirk: boom");
}

#[test]
fn refresh_keeps_running_client() {
    let mut state = connected(ConnectionMode::Proxy, false);
    assert_eq!(state.message, "Connected in local proxy mode");
    let plan = refresh_state(&mut state, TargetOs::Linux, &ProcessStatus::Running, &ProcessStatus::Running);
    assert_eq!(plan, None);
    assert_eq!(state.phase, ConnectionPhase::Connected);
    assert!(state.client.is_some());
}

#[test]
fn refresh_stops_everything_when_tunnel_exits() {
    let mut state = connected(ConnectionMode::Vpn, true);
    let plan = refresh_state(
        &mut state,
        TargetOs::Linux,
        &ProcessStatus::Exited("exit status: 3".into()),
        &ProcessStatus::Running,
    );
    assert_eq!(
        plan,
        Some(StopPlan {
            terminate_tunnel: true,
            cleanup_tun_routes: true,
            disable_system_proxy: false,
            terminate_client: true,
            cleanup_stale_proxy: false,
        })
    );
    assert!(state.client.is_none() && state.tunnel.is_none());
    assert_eq!(state.phase, ConnectionPhase::Error);
    assert_eq!(state.message, "VPN sidecar exited: exit status: 3");
}

#[test]
fn refresh_reports_client_exit_and_poll_failures() {
    let mut state = connected(ConnectionMode::Proxy, false);
    refresh_state(&mut state, TargetOs::Windows, &ProcessStatus::Running, &ProcessStatus::Exited("exit code: 1".into()));
    assert_eq!(state.message, "Skirk exited: exit code: 1");
    assert_eq!(state.phase, ConnectionPhase::Error);

    let mut state = connected(ConnectionMode::Vpn, true);
    let plan = refresh_state(&mut state, TargetOs::Windows, &ProcessStatus::Running, &ProcessStatus::Failed("denied".into()));
    assert_eq!(state.message, "Skirk status failed: denied");
    assert_eq!(plan.map(|p| (p.terminate_tunnel, p.cleanup_tun_routes)), Some((true, false)));

    let mut state = connected(ConnectionMode::Vpn, true);
    refresh_state(&mut state, TargetOs::Linux, &ProcessStatus::Failed("gone".into()), &ProcessStatus::Running);
    assert_eq!(state.message, "VPN status failed: gone");
    assert_eq!(tunnel_poll_error(&ProcessStatus::Running), None);
}

#[test]
fn stop_and_disconnect_plans() {
    let mut idle = RuntimeState::default();
    assert_eq!(
        stop_runtime(&mut idle, TargetOs::Windows),
        StopPlan {
            terminate_tunnel: false,
            cleanup_tun_routes: false,
            disable_system_proxy: false,
            terminate_client: false,
            cleanup_stale_proxy: true,
        }
    );
    let mut state = RuntimeState::default();
    complete_connect(&mut state, client(ConnectionMode::System, true), None);
    assert_eq!(state.message, "Connected and Windows system proxy is enabled");
    let plan = disconnect(&mut state, TargetOs::Windows);
    assert!(plan.disable_system_proxy && plan.terminate_client && !plan.cleanup_stale_proxy);
    assert_eq!(state.phase, ConnectionPhase::Disconnected);
    assert_eq!(state.message, "Disconnected");
    assert!(state.client.is_none());
    let again = disconnect(&mut state, TargetOs::Windows);
    assert!(again.cleanup_stale_proxy && !again.terminate_client);
}

#[test]
fn connect_error_does_not_touch_running_client() {
    let mut state = connected(ConnectionMode::Vpn, true);
    assert_eq!(state.message, "Connected in VPN mode");
    mark_connect_error(&mut state, "late failure".into());
    assert_eq!(state.phase, ConnectionPhase::Connected);
    assert_eq!(state.message, "Connected in VPN mode");
    assert_eq!(connected_message(ConnectionMode::Vpn), "Connected in VPN mode");
}

#[test]
fn changes_wait_for_disconnect() {
    let state = connected(ConnectionMode::Proxy, false);
    assert_eq!(
        require_disconnected(&state, IdleChange::Performance),
        Err("disconnect before changing performance settings".to_string())
    );
    assert_eq!(
        require_disconnected(&state, IdleChange::Profile),
        Err("disconnect before switching profiles".to_string())
    );
    assert_eq!(
        require_disconnected(&state, IdleChange::Mode),
        Err("disconnect before changing connection mode".to_string())
    );
    assert_eq!(require_disconnected(&RuntimeState::default(), IdleChange::Mode), Ok(()));
}

#[test]
fn modes_checked_against_platform() {
    let linux = platform_capabilities(TargetOs::Linux, false, true);
    assert_eq!(
        check_mode_available(ConnectionMode::System, TargetOs::Linux, &linux, true),
        Err("system proxy mode is only available on Windows".to_string())
    );
    assert_eq!(
        check_mode_available(ConnectionMode::Vpn, TargetOs::Linux, &linux, true),
        Err("VPN mode needs the bundled TUN sidecar skirk-tunnel".to_string())
    );
    assert_eq!(check_mode_available(ConnectionMode::Proxy, TargetOs::Linux, &linux, false), Ok(()));
    let windows = platform_capabilities(TargetOs::Windows, true, false);
    assert_eq!(check_mode_available(ConnectionMode::Vpn, TargetOs::Windows, &windows, false), Ok(()));
    assert_eq!(check_mode_available(ConnectionMode::System, TargetOs::Windows, &windows, false), Ok(()));
}

#[test]
fn tunnel_preflight_checks() {
    assert_eq!(
        tunnel_preflight(TargetOs::Macos, true),
        Err("VPN mode is only available on Windows and Linux".to_string())
    );
    assert_eq!(
        tunnel_preflight(TargetOs::Windows, false),
        Err("VPN mode needs Administrator privileges to create the Windows TUN adapter".to_string())
    );
    assert_eq!(tunnel_preflight(TargetOs::Linux, true), Ok(()));
}

#[test]
fn probe_decisions() {
    assert!(matches!(probe_outcome("SOCKS", &ProbeEvent::Reached), ProbeOutcome::Ready));
    assert!(matches!(
        probe_outcome("SOCKS", &ProbeEvent::Polled(ProcessStatus::Running)),
        ProbeOutcome::Waiting
    ));
    assert!(matches!(probe_outcome("SOCKS", &ProbeEvent::DeadlinePassed), ProbeOutcome::Unverified(None)));
    match probe_outcome("HTTP proxy", &ProbeEvent::Polled(ProcessStatus::Exited("exit status: 2".into()))) {
        ProbeOutcome::Unverified(Some(detail)) => assert_eq!(detail, "sidecar exited with exit status: 2"),
        other => panic!("{other:?}"),
    }
    match probe_outcome("SOCKS", &ProbeEvent::Polled(ProcessStatus::Failed("EPERM".into()))) {
        ProbeOutcome::Failed(message) => assert_eq!(
            message,
            "Skirk sidecar status check failed while waiting for SOCKS: EPERM"
        ),
        other => panic!("{other:?}"),
    }
}

#[test]
fn process_start_messages_carry_log_tail() {
    assert_eq!(process_start_error(&ProcessStatus::Running, "x"), None);
    assert_eq!(
        process_start_error(&ProcessStatus::Exited("exit status: 1".into()), "a\nb\n").as_deref(),
        Some("process exited early with exit status: 1; log: a\nb")
    );
    assert_eq!(
        process_start_error(&ProcessStatus::Failed("io".into()), "").as_deref(),
        Some("process status failed: io; log: ")
    );
    assert_eq!(
        tunnel_start_failure("boom", "l1\nl2"),
        "VPN sidecar failed to start: boom\nl1\nl2"
    );
}

#[test]
fn tun_cleanup_command_sequence() {
    let mut step = tun_cleanup_start();
    let mut commands = Vec::new();
    let mut rule_attempts = 0;
    while let Some(args) = tun_cleanup_command(&step, TargetOs::Linux) {
        let succeeded = if args[0] == "rule" {
            rule_attempts += 1;
            args[3] == "9001"
        } else {
            true
        };
        commands.push(args.join(" "));
        step = tun_cleanup_advance(step, succeeded);
    }
    assert_eq!(rule_attempts, 5 + 8);
    assert_eq!(commands.first().map(String::as_str), Some("rule del pref 9000"));
    assert_eq!(commands.iter().filter(|c| c.as_str() == "rule del pref 9001").count(), 8);
    assert_eq!(commands[commands.len() - 2], "route flush table 2022");
    assert_eq!(commands[commands.len() - 1], "link del skirk-tun0");
    assert_eq!(tun_cleanup_advance(step, true), step);
}

fn profile(id: &str) -> ClientProfile {
    ClientProfile {
        id: id.into(),
        name: "Test".into(),
        config_path: "/cfg/client.skirk".into(),
        socks_host: "0.0.0.0".into(),
        socks_port: 18080,
        http_host: "0.0.0.0".into(),
        http_port: 18081,
        share_lan: true,
        route_mode: "google_front_pinned".into(),
        google_ip: " 8.8.8.8 ".into(),
        drive_space: "appDataFolder".into(),
        drive_folder_id: String::new(),
        performance: default_performance_settings(),
    }
}

#[test]
fn connect_plan_and_client_arguments() {
    let profiles = vec![profile("a"), profile("b")];
    let settings = Settings { selected_profile_id: Some("b".into()), connection_mode: ConnectionMode::Vpn };
    let caps = platform_capabilities(TargetOs::Linux, true, true);
    let plan = plan_connect(&profiles, &settings, TargetOs::Linux, &caps, true).expect("plan");
    assert_eq!(plan.profile.id, "b");
    assert_eq!(plan.mode, ConnectionMode::Vpn);
    assert_eq!(plan.socks_address, "127.0.0.1:18080");
    assert_eq!(plan.http_address, "127.0.0.1:18081");
    assert_eq!(plan.google_ip, "8.8.8.8");
    let args = client_command_args(&plan, "/run/m.json", 99);
    assert_eq!(
        args.join(" "),
        "serve-client --config /cfg/client.skirk --listen 127.0.0.1:18080 --http-proxy-listen 127.0.0.1:18081 --client-id b --route-mode google_front_pinned --google-ip 8.8.8.8 --no-burst-poll --poll-ms 1000 --upload-concurrency 8 --download-concurrency 16 --metrics-path /run/m.json --watch-parent-pid 99"
    );
    let mut burst = profile("c");
    burst.performance.preset = PerformancePreset::Responsive;
    let settings = Settings { selected_profile_id: None, connection_mode: ConnectionMode::Proxy };
    let plan = plan_connect(&vec![burst], &settings, TargetOs::Linux, &caps, true).expect("plan");
    assert_eq!(plan.socks_address, "0.0.0.0:18080");
    let args = client_command_args(&plan, "m", 1);
    assert!(args.join(" ").contains("--burst-poll --burst-poll-ms 75 --burst-poll-window-ms 5000 --poll-ms 1000"));
}

#[test]
fn connect_plan_errors_in_order() {
    let caps = platform_capabilities(TargetOs::Linux, false, true);
    let settings = Settings { selected_profile_id: None, connection_mode: ConnectionMode::Vpn };
    assert_eq!(
        plan_connect(&Vec::new(), &settings, TargetOs::Linux, &caps, true).err().as_deref(),
        Some("no profile selected")
    );
    let mut bad = profile("a");
    bad.performance.preset = PerformancePreset::Custom;
    bad.performance.poll_ms = 10;
    bad.google_ip = "nope".into();
    assert_eq!(
        plan_connect(&vec![bad], &settings, TargetOs::Linux, &caps, true).err().as_deref(),
        Some("check interval must be between 250 ms and 60000 ms")
    );
    let mut bad_ip = profile("a");
    bad_ip.google_ip = "nope".into();
    assert_eq!(
        plan_connect(&vec![bad_ip], &settings, TargetOs::Linux, &caps, false).err().as_deref(),
        Some("VPN mode needs root or CAP_NET_ADMIN privileges to create the Linux TUN interface")
    );
    let mut bad_ip = profile("a");
    bad_ip.google_ip = "nope".into();
    let proxy = Settings { selected_profile_id: None, connection_mode: ConnectionMode::Proxy };
    assert_eq!(
        plan_connect(&vec![bad_ip], &proxy, TargetOs::Linux, &caps, false).err().as_deref(),
        Some("profile route.google_ip must be an IP address")
    );
}

#[test]
fn status_shows_running_client_or_configured_mode() {
    let lan = vec!["192.168.1.9".to_string()];
    let idle = connection_status(&RuntimeState::default(), ConnectionMode::Vpn, &lan);
    assert_eq!(idle.mode, ConnectionMode::Vpn);
    assert_eq!(idle.phase, ConnectionPhase::Disconnected);
    assert!(idle.pid.is_none() && idle.lan_addresses.is_empty() && !idle.tunnel_active);

    let state = connected(ConnectionMode::Vpn, true);
    let status = connection_status(&state, ConnectionMode::Proxy, &lan);
    assert_eq!(status.mode, ConnectionMode::Vpn);
    assert_eq!(status.pid, Some(4242));
    assert_eq!(status.tunnel_pid, Some(77));
    assert_eq!(status.active_profile_id.as_deref(), Some("profile-1"));
    assert_eq!(status.lan_addresses, vec!["192.168.1.9:18080".to_string()]);
    assert!(status.lan_http_addresses.is_empty());
    assert!(status.tunnel_active);
    assert_eq!(status.tunnel_interface_name.as_deref(), Some("skirk-tun0"));
    assert_eq!(status.message, "Connected in VPN mode");
}

fn plan_for(mode: ConnectionMode) -> ConnectPlan {
    let settings = Settings { selected_profile_id: None, connection_mode: mode };
    let caps = platform_capabilities(TargetOs::Windows, true, true);
    plan_connect(&vec![profile("p")], &settings, TargetOs::Windows, &caps, true).expect("plan")
}

fn step(state: &mut RuntimeState, attempt: ConnectAttempt, event: ConnectEvent)
    -> (ConnectAttempt, ConnectAction) {
    assert!(accepts(&attempt, &event));
    connect_step(state, attempt, event)
}

#[test]
fn connect_steps_follow_the_mode() {
    for (mode, with_tunnel, with_proxy) in [
        (ConnectionMode::Proxy, false, false),
        (ConnectionMode::Vpn, true, false),
        (ConnectionMode::System, false, true),
    ] {
        let mut state = RuntimeState::default();
        let attempt = start_connect(&mut state, plan_for(mode), "/run/m.json".into());
        assert_eq!(state.phase, ConnectionPhase::Connecting);
        let (attempt, action) = step(&mut state, attempt, ConnectEvent::ClientStarted(42));
        assert!(matches!(action, ConnectAction::ProbeListeners));
        let (mut attempt, mut action) = step(&mut state, attempt, ConnectEvent::ListenersReady);
        if with_tunnel {
            assert!(matches!(action, ConnectAction::StartTunnel));
            assert_eq!(attempt.stage, ConnectStage::StartingTunnel);
            (attempt, action) = step(&mut state, attempt, ConnectEvent::TunnelStarted(tunnel()));
        }
        if with_proxy {
            assert!(matches!(action, ConnectAction::EnableSystemProxy));
            (attempt, action) = step(&mut state, attempt, ConnectEvent::SystemProxyEnabled);
        }
        assert!(matches!(action, ConnectAction::Connected));
        assert_eq!(attempt.stage, ConnectStage::Done);
        let client = state.client.as_ref().expect("client recorded");
        assert_eq!(client.pid, 42);
        assert_eq!(client.profile_id, "p");
        assert_eq!(client.mode, mode);
        assert_eq!(client.metrics_path, "/run/m.json");
        assert_eq!(client.system_proxy_enabled, with_proxy);
        assert_eq!(state.tunnel.is_some(), with_tunnel);
        assert_eq!(state.phase, ConnectionPhase::Connected);
        assert_eq!(state.message, connected_message(mode));
        assert!(!accepts(&attempt, &ConnectEvent::ListenersReady));

        let (stop, running) = connect_gate(&mut state, TargetOs::Windows, &ProcessStatus::Running, &ProcessStatus::Running);
        assert!(stop.is_none() && running);
        assert_eq!(state.client.as_ref().map(|c| c.pid), Some(42));
        assert_eq!(state.tunnel.is_some(), with_tunnel);
    }
}

#[test]
fn failed_connect_steps_end_what_was_started() {
    let mut state = RuntimeState::default();
    let attempt = start_connect(&mut state, plan_for(ConnectionMode::Proxy), "m".into());
    let (_, action) = step(&mut state, attempt, ConnectEvent::ClientFailed("no such file".into()));
    match action {
        ConnectAction::Abort { terminate_client, terminate_tunnel, message } => {
            assert!(!terminate_client && !terminate_tunnel);
            assert_eq!(message, "failed to start skirk: no such file");
        }
        other => panic!("{other:?}"),
    }
    assert_eq!(state.phase, ConnectionPhase::Error);
    assert_eq!(state.message, "failed to start skirk: no such file");

    let cases = [
        (ConnectionMode::Proxy, None, ConnectEvent::ListenerFailed("probe".into()), false),
        (ConnectionMode::Vpn, Some(()), ConnectEvent::TunnelNotStarted("preflight".into()), false),
        (ConnectionMode::Vpn, Some(()), ConnectEvent::TunnelStartFailed("exited".into()), true),
        (ConnectionMode::System, Some(()), ConnectEvent::SystemProxyFailed("reg".into()), false),
    ];
    for (mode, past_listeners, failure, stop_tunnel) in cases {
        let mut state = RuntimeState::default();
        let attempt = start_connect(&mut state, plan_for(mode), "m".into());
        let (mut attempt, _) = step(&mut state, attempt, ConnectEvent::ClientStarted(7));
        if past_listeners.is_some() {
            attempt = step(&mut state, attempt, ConnectEvent::ListenersReady).0;
        }
        let (attempt, action) = step(&mut state, attempt, failure);
        match action {
            ConnectAction::Abort { terminate_client, terminate_tunnel, message } => {
                assert!(terminate_client);
                assert_eq!(terminate_tunnel, stop_tunnel);
                assert_eq!(state.message, message);
            }
            other => panic!("{other:?}"),
        }
        assert_eq!(attempt.stage, ConnectStage::Done);
        assert!(state.client.is_none() && state.tunnel.is_none());
        assert_eq!(state.phase, ConnectionPhase::Error);
    }
}

#[test]
fn connect_gate_stops_a_connection_whose_process_ended() {
    let mut state = connected(ConnectionMode::Vpn, true);
    let (stop, running) = connect_gate(
        &mut state,
        TargetOs::Linux,
        &ProcessStatus::Exited("exit status: 1".into()),
        &ProcessStatus::Running,
    );
    let stop = stop.expect("stop plan");
    assert!(stop.terminate_tunnel && stop.cleanup_tun_routes && stop.terminate_client);
    assert!(!running);
    assert!(state.client.is_none() && state.tunnel.is_none());
    assert_eq!(state.phase, ConnectionPhase::Error);
    assert_eq!(state.message, "VPN sidecar exited: exit status: 1");

    let mut state = connected(ConnectionMode::Proxy, false);
    let (stop, running) = connect_gate(
        &mut state,
        TargetOs::Windows,
        &ProcessStatus::Exited("ignored".into()),
        &ProcessStatus::Failed("access denied".into()),
    );
    assert!(stop.is_some() && !running);
    assert_eq!(state.phase, ConnectionPhase::Error);
    assert_eq!(state.message, "Skirk status failed: access denied");

    let mut state = RuntimeState::default();
    let (stop, running) = connect_gate(&mut state, TargetOs::Linux, &ProcessStatus::Running, &ProcessStatus::Running);
    assert!(stop.is_none() && !running);
    assert_eq!(state.phase, ConnectionPhase::Disconnected);
}
