//! Client profiles and the settings that select one: how profiles are
//! stored, replaced, removed and chosen, and how an imported configuration
//! becomes a profile.
use vstd::prelude::*;

use crate::inline_config::{extract_inline_config, spec_extract_inline_config};
use crate::net::{canonical_google_ip, google_ip_input};
use crate::ip::{spec_ip_text, spec_parse_ip};
use crate::performance::{default_performance_settings, preset_settings, ClientPerformanceSettings, PerformancePreset};
use crate::text::{decimal, decimal_string, opt_text, same_text, trim, trim_str};

verus! {

/// How the client is exposed: a local proxy, the Windows system proxy, or a
/// VPN tunnel.
#[derive(Clone, Copy, Debug, PartialEq, Eq, Structural)]
pub enum ConnectionMode {
    Proxy,
    System,
    Vpn,
}

impl Default for ConnectionMode {
    fn default() -> (m: Self)
        ensures
            m == ConnectionMode::Proxy,
    {
        ConnectionMode::Proxy
    }
}

/// A saved client profile.
#[derive(Debug)]
pub struct ClientProfile {
    pub id: String,
    pub name: String,
    pub config_path: String,
    pub socks_host: String,
    pub socks_port: u16,
    pub http_host: String,
    pub http_port: u16,
    pub share_lan: bool,
    pub route_mode: String,
    pub google_ip: String,
    pub drive_space: String,
    pub drive_folder_id: String,
    pub performance: ClientPerformanceSettings,
}

/// A profile's contents as plain values.
pub struct ProfileView {
    pub id: Seq<char>,
    pub name: Seq<char>,
    pub config_path: Seq<char>,
    pub socks_host: Seq<char>,
    pub socks_port: u16,
    pub http_host: Seq<char>,
    pub http_port: u16,
    pub share_lan: bool,
    pub route_mode: Seq<char>,
    pub google_ip: Seq<char>,
    pub drive_space: Seq<char>,
    pub drive_folder_id: Seq<char>,
    pub performance: ClientPerformanceSettings,
}

impl View for ClientProfile {
    type V = ProfileView;

    open spec fn view(&self) -> ProfileView {
        ProfileView {
            id: self.id@,
            name: self.name@,
            config_path: self.config_path@,
            socks_host: self.socks_host@,
            socks_port: self.socks_port,
            http_host: self.http_host@,
            http_port: self.http_port,
            share_lan: self.share_lan,
            route_mode: self.route_mode@,
            google_ip: self.google_ip@,
            drive_space: self.drive_space@,
            drive_folder_id: self.drive_folder_id@,
            performance: self.performance,
        }
    }
}

impl ClientProfile {
    /// A copy with the same contents.
    pub fn duplicate(&self) -> (r: Self)
        ensures
            r@ == self@,
    {
        ClientProfile {
            id: self.id.clone(),
            name: self.name.clone(),
            config_path: self.config_path.clone(),
            socks_host: self.socks_host.clone(),
            socks_port: self.socks_port,
            http_host: self.http_host.clone(),
            http_port: self.http_port,
            share_lan: self.share_lan,
            route_mode: self.route_mode.clone(),
            google_ip: self.google_ip.clone(),
            drive_space: self.drive_space.clone(),
            drive_folder_id: self.drive_folder_id.clone(),
            performance: self.performance,
        }
    }
}

/// The stored settings: which profile is selected and the connection mode.
#[derive(Debug)]
pub struct Settings {
    pub selected_profile_id: Option<String>,
    pub connection_mode: ConnectionMode,
}

pub struct SettingsView {
    pub selected_profile_id: Option<Seq<char>>,
    pub connection_mode: ConnectionMode,
}

impl View for Settings {
    type V = SettingsView;

    open spec fn view(&self) -> SettingsView {
        SettingsView {
            selected_profile_id: opt_text(self.selected_profile_id),
            connection_mode: self.connection_mode,
        }
    }
}

impl Default for Settings {
    fn default() -> (s: Self)
        ensures
            s.selected_profile_id is None,
            s.connection_mode == ConnectionMode::Proxy,
    {
        Settings { selected_profile_id: None, connection_mode: ConnectionMode::Proxy }
    }
}

fn copy_opt_text(o: &Option<String>) -> (r: Option<String>)
    ensures
        opt_text(r) == opt_text(*o),
{
    match o {
        Some(s) => Some(s.clone()),
        None => None,
    }
}

pub open spec fn profiles_view(ps: Seq<ClientProfile>) -> Seq<ProfileView> {
    ps.map_values(|p: ClientProfile| p@)
}

/// Some profile in `ps` has identifier `id`.
pub open spec fn has_profile(ps: Seq<ProfileView>, id: Seq<char>) -> bool {
    exists|i: int| 0 <= i < ps.len() && ps[i].id == id
}

/// Index of the first profile in `ps` with identifier `id`.
pub open spec fn first_with_id(ps: Seq<ProfileView>, id: Seq<char>, i: int) -> Option<int>
    decreases ps.len() - i,
{
    if i < 0 || i >= ps.len() {
        None
    } else if ps[i].id == id {
        Some(i)
    } else {
        first_with_id(ps, id, i + 1)
    }
}

pub proof fn lemma_first_with_id(ps: Seq<ProfileView>, id: Seq<char>, i: int)
    requires
        0 <= i,
    ensures
        first_with_id(ps, id, i) matches Some(k) ==> i <= k < ps.len() && ps[k].id == id
            && forall|m: int| i <= m < k ==> ps[m].id != id,
        first_with_id(ps, id, i) is None ==> forall|m: int| i <= m < ps.len() ==> ps[m].id != id,
    decreases ps.len() - i,
{
    if i < ps.len() && ps[i].id != id {
        lemma_first_with_id(ps, id, i + 1);
    }
}

/// Index of the first profile with identifier `id`.
pub fn find_profile(profiles: &Vec<ClientProfile>, id: &str) -> (r: Option<usize>)
    ensures
        match r {
            Some(k) => first_with_id(profiles_view(profiles@), id@, 0) == Some(k as int) && k
                < profiles@.len(),
            None => first_with_id(profiles_view(profiles@), id@, 0) is None,
        },
{
    proof {
        lemma_first_with_id(profiles_view(profiles@), id@, 0);
    }
    let mut i: usize = 0;
    while i < profiles.len()
        invariant
            i <= profiles.len(),
            first_with_id(profiles_view(profiles@), id@, 0) == first_with_id(
                profiles_view(profiles@),
                id@,
                i as int,
            ),
        decreases profiles.len() - i,
    {
        assert(profiles_view(profiles@)[i as int] == profiles@[i as int]@);
        if same_text(profiles[i].id.as_str(), id) {
            return Some(i);
        }
        i = i + 1;
    }
    None
}

/// `ps` without the profiles whose identifier is `id`, in order.
pub open spec fn without_id(ps: Seq<ProfileView>, id: Seq<char>) -> Seq<ProfileView>
    decreases ps.len(),
{
    if ps.len() == 0 {
        seq![]
    } else {
        let rest = without_id(ps.drop_last(), id);
        if ps.last().id == id {
            rest
        } else {
            rest.push(ps.last())
        }
    }
}

/// Keeps the profiles whose identifier is not `id`.
fn retain_other_ids(profiles: &Vec<ClientProfile>, id: &str) -> (r: Vec<ClientProfile>)
    ensures
        profiles_view(r@) == without_id(profiles_view(profiles@), id@),
{
    let mut out: Vec<ClientProfile> = Vec::new();
    let ghost ps = profiles_view(profiles@);
    for i in 0..profiles.len()
        invariant
            ps == profiles_view(profiles@),
            profiles_view(out@) == without_id(ps.take(i as int), id@),
    {
        proof {
            assert(ps[i as int] == profiles@[i as int]@);
            assert(ps.take(i + 1).drop_last() =~= ps.take(i as int));
            assert(ps.take(i + 1).last() == ps[i as int]);
        }
        if !same_text(profiles[i].id.as_str(), id) {
            let ghost before = profiles_view(out@);
            out.push(profiles[i].duplicate());
            assert(profiles_view(out@) =~= before.push(ps[i as int]));
        }
    }
    assert(ps.take(ps.len() as int) =~= ps);
    out
}

/// Replaces any profile with the same identifier by `profile`, which goes
/// last.
pub fn upsert_profile(profiles: Vec<ClientProfile>, profile: ClientProfile) -> (r: Vec<
    ClientProfile,
>)
    ensures
        profiles_view(r@) == without_id(profiles_view(profiles@), profile@.id).push(profile@),
{
    let mut kept = retain_other_ids(&profiles, profile.id.as_str());
    let ghost before = profiles_view(kept@);
    kept.push(profile);
    assert(profiles_view(kept@) =~= before.push(profile@));
    kept
}

/// Removes the profiles with identifier `id`; also gives the configuration
/// file of the first one, which goes with it.
pub fn remove_profile(profiles: Vec<ClientProfile>, id: &str) -> (r: (
    Vec<ClientProfile>,
    Option<String>,
))
    ensures
        profiles_view(r.0@) == without_id(profiles_view(profiles@), id@),
        match first_with_id(profiles_view(profiles@), id@, 0) {
            Some(k) => opt_text(r.1) == Some(profiles_view(profiles@)[k].config_path),
            None => r.1 is None,
        },
{
    let path = match find_profile(&profiles, id) {
        Some(k) => {
            assert(profiles_view(profiles@)[k as int] == profiles@[k as int]@);
            Some(profiles[k].config_path.clone())
        },
        None => None,
    };
    (retain_other_ids(&profiles, id), path)
}

/// No profile left by `without_id` has that identifier; all others stay.
pub proof fn lemma_without_id(ps: Seq<ProfileView>, id: Seq<char>)
    ensures
        forall|i: int| 0 <= i < without_id(ps, id).len() ==> #[trigger] without_id(ps, id)[i].id != id,
        forall|q: ProfileView| #[trigger] ps.contains(q) && q.id != id ==> without_id(ps, id).contains(q),
        forall|q: ProfileView| #[trigger] without_id(ps, id).contains(q) ==> ps.contains(q),
    decreases ps.len(),
{
    if ps.len() > 0 {
        let init = ps.drop_last();
        lemma_without_id(init, id);
        let rest = without_id(init, id);
        assert forall|q: ProfileView| #[trigger] ps.contains(q) && q.id != id implies without_id(
            ps,
            id,
        ).contains(q) by {
            let k = choose|k: int| 0 <= k < ps.len() && ps[k] == q;
            if k < ps.len() - 1 {
                assert(init[k] == q);
                assert(init.contains(q));
                let j = choose|j: int| 0 <= j < rest.len() && rest[j] == q;
                if ps.last().id != id {
                    assert(rest.push(ps.last())[j] == q);
                }
            } else {
                assert(rest.push(ps.last())[rest.len() as int] == q);
            }
        }
        assert forall|q: ProfileView| #[trigger] without_id(ps, id).contains(q) implies ps.contains(q) by {
            let j = choose|j: int| 0 <= j < without_id(ps, id).len() && without_id(ps, id)[j] == q;
            if j < rest.len() {
                assert(rest[j] == q);
                assert(rest.contains(q));
                let k = choose|k: int| 0 <= k < init.len() && init[k] == q;
                assert(ps[k] == q);
            } else {
                assert(ps[ps.len() - 1] == q);
            }
        }
    }
}

/// After `upsert_profile`, exactly one profile carries the new profile's
/// identifier: the new profile, last; every other profile is still there.
pub proof fn lemma_upsert_profile(ps: Seq<ProfileView>, p: ProfileView)
    ensures
        ({
            let r = without_id(ps, p.id).push(p);
            &&& r.last() == p
            &&& forall|i: int| 0 <= i < r.len() - 1 ==> #[trigger] r[i].id != p.id
            &&& forall|q: ProfileView| #[trigger] ps.contains(q) && q.id != p.id ==> r.contains(q)
            &&& forall|q: ProfileView| #[trigger] r.contains(q) ==> q == p || ps.contains(q)
        }),
{
    lemma_without_id(ps, p.id);
    let w = without_id(ps, p.id);
    let r = w.push(p);
    assert forall|i: int| 0 <= i < r.len() - 1 implies #[trigger] r[i].id != p.id by {
        assert(r[i] == w[i]);
    }
    assert forall|q: ProfileView| #[trigger] ps.contains(q) && q.id != p.id implies r.contains(q) by {
        let j = choose|j: int| 0 <= j < w.len() && w[j] == q;
        assert(r[j] == q);
    }
    assert forall|q: ProfileView| #[trigger] r.contains(q) implies q == p || ps.contains(q) by {
        let j = choose|j: int| 0 <= j < r.len() && r[j] == q;
        if j < w.len() {
            assert(w[j] == q);
            assert(w.contains(q));
        }
    }
}


/// What the selection becomes when profiles are listed: kept while it names
/// an existing profile, otherwise the first profile, or none when there
/// are no profiles.
pub open spec fn spec_reconciled_selection(sel: Option<Seq<char>>, ps: Seq<ProfileView>) -> Option<
    Seq<char>,
> {
    if sel matches Some(id) && has_profile(ps, id) {
        sel
    } else if ps.len() > 0 {
        Some(ps[0].id)
    } else {
        None
    }
}

fn first_profile_id(profiles: &Vec<ClientProfile>) -> (r: Option<String>)
    ensures
        opt_text(r) == if profiles@.len() > 0 {
            Some(profiles_view(profiles@)[0].id)
        } else {
            None
        },
{
    if profiles.len() > 0 {
        assert(profiles_view(profiles@)[0] == profiles@[0]@);
        Some(profiles[0].id.clone())
    } else {
        None
    }
}

/// Makes the selection name an existing profile, as listing the profiles
/// does; the flag tells whether the settings were rewritten and need saving.
pub fn reconcile_selected_profile(settings: Settings, profiles: &Vec<ClientProfile>) -> (r: (
    Settings,
    bool,
))
    ensures
        r.0@.selected_profile_id == spec_reconciled_selection(
            settings@.selected_profile_id,
            profiles_view(profiles@),
        ),
        r.0.connection_mode == settings.connection_mode,
        r.1 == !(settings@.selected_profile_id matches Some(id) && has_profile(
            profiles_view(profiles@),
            id,
        )),
{
    let found = match &settings.selected_profile_id {
        Some(id) => {
            let k = find_profile(profiles, id.as_str());
            proof {
                lemma_first_with_id(profiles_view(profiles@), id@, 0);
                if has_profile(profiles_view(profiles@), id@) {
                    let w = choose|i: int|
                        0 <= i < profiles_view(profiles@).len() && profiles_view(profiles@)[i].id
                            == id@;
                    assert(profiles_view(profiles@)[w].id == id@);
                }
            }
            k.is_some()
        },
        None => false,
    };
    if found {
        (settings, false)
    } else {
        (
            Settings {
                selected_profile_id: first_profile_id(profiles),
                connection_mode: settings.connection_mode,
            },
            true,
        )
    }
}

/// The selection once the profile `deleted_id` is gone and `remaining` are
/// left: a selection of the deleted profile moves to the first remaining
/// profile, or to none.
pub open spec fn spec_selection_after_delete(
    sel: Option<Seq<char>>,
    deleted_id: Seq<char>,
    remaining: Seq<ProfileView>,
) -> Option<Seq<char>> {
    if sel == Some(deleted_id) {
        if remaining.len() > 0 {
            Some(remaining[0].id)
        } else {
            None
        }
    } else {
        sel
    }
}

/// The selection after the profile `deleted_id` was removed: a selection of
/// the deleted profile moves to the first remaining profile (or none); the
/// flag tells whether the settings changed and need saving.
pub fn settings_after_delete(
    settings: Settings,
    deleted_id: &str,
    remaining: &Vec<ClientProfile>,
) -> (r: (Settings, bool))
    ensures
        r.1 == (settings@.selected_profile_id == Some(deleted_id@)),
        r.0@.selected_profile_id == spec_selection_after_delete(
            settings@.selected_profile_id,
            deleted_id@,
            profiles_view(remaining@),
        ),
        r.0.connection_mode == settings.connection_mode,
        settings@.selected_profile_id == Some(deleted_id@) && remaining.len() > 0
            ==> r.0@.selected_profile_id == Some(remaining@[0]@.id),
        settings@.selected_profile_id == Some(deleted_id@) && remaining.len() == 0
            ==> r.0@.selected_profile_id is None,
        settings@.selected_profile_id != Some(deleted_id@) ==> r.0@.selected_profile_id
            == settings@.selected_profile_id,
{
    let selected_deleted = match &settings.selected_profile_id {
        Some(id) => same_text(id.as_str(), deleted_id),
        None => false,
    };
    if selected_deleted {
        (
            Settings {
                selected_profile_id: first_profile_id(remaining),
                connection_mode: settings.connection_mode,
            },
            true,
        )
    } else {
        (settings, false)
    }
}

/// Deleting the selected profile moves the selection to the first profile
/// that remains (none when none remains); deleting another profile leaves
/// the selection where it was.
pub proof fn lemma_delete_moves_selection_to_first(
    sel: Option<Seq<char>>,
    deleted_id: Seq<char>,
    remaining: Seq<ProfileView>,
)
    ensures
        sel == Some(deleted_id) && remaining.len() > 0 ==> spec_selection_after_delete(
            sel,
            deleted_id,
            remaining,
        ) == Some(remaining.first().id),
        sel == Some(deleted_id) && remaining.len() > 1 ==> spec_selection_after_delete(
            sel,
            deleted_id,
            remaining,
        ) == spec_selection_after_delete(sel, deleted_id, remaining.take(1)),
        sel == Some(deleted_id) && remaining.len() == 0 ==> spec_selection_after_delete(
            sel,
            deleted_id,
            remaining,
        ) is None,
        sel != Some(deleted_id) ==> spec_selection_after_delete(sel, deleted_id, remaining) == sel,
{
}

/// Listing the profiles leaves a selection that names an existing profile,
/// and none only when there are no profiles; a selection that already
/// names one is kept, so listing again changes nothing.
pub proof fn lemma_reconciled_selection(sel: Option<Seq<char>>, ps: Seq<ProfileView>)
    ensures
        spec_reconciled_selection(sel, ps) is None <==> ps.len() == 0,
        spec_reconciled_selection(sel, ps) matches Some(id) ==> has_profile(ps, id),
        spec_reconciled_selection(spec_reconciled_selection(sel, ps), ps)
            == spec_reconciled_selection(sel, ps),
        (sel matches Some(id) && has_profile(ps, id)) ==> spec_reconciled_selection(sel, ps)
            == sel,
{
    if !(sel matches Some(id) && has_profile(ps, id)) && ps.len() > 0 {
        assert(ps[0].id == ps[0].id);
        assert(has_profile(ps, ps[0].id));
    }
}

/// Deleting a profile never leaves it selected: the selection after the
/// delete names no removed profile, and a selection of another existing
/// profile stays as it was.
pub proof fn lemma_delete_clears_selection(
    sel: Option<Seq<char>>,
    ps: Seq<ProfileView>,
    deleted_id: Seq<char>,
)
    ensures
        spec_selection_after_delete(sel, deleted_id, without_id(ps, deleted_id)) != Some(
            deleted_id,
        ),
        (sel matches Some(id) && id != deleted_id) ==> spec_selection_after_delete(
            sel,
            deleted_id,
            without_id(ps, deleted_id),
        ) == sel,
        sel == Some(deleted_id) ==> (spec_selection_after_delete(
            sel,
            deleted_id,
            without_id(ps, deleted_id),
        ) matches Some(id) ==> has_profile(without_id(ps, deleted_id), id)),
{
    lemma_without_id(ps, deleted_id);
    let w = without_id(ps, deleted_id);
    if sel == Some(deleted_id) && w.len() > 0 {
        assert(w[0].id != deleted_id);
        assert(has_profile(w, w[0].id));
    }
}

/// A connection uses the selected profile while it exists, some profile
/// whenever there is one, and fails only when there are none.
pub proof fn lemma_connect_profile(sel: Option<Seq<char>>, ps: Seq<ProfileView>)
    ensures
        spec_connect_profile(sel, ps) is None <==> ps.len() == 0,
        spec_connect_profile(sel, ps) matches Some(k) ==> 0 <= k < ps.len(),
        (sel matches Some(id) && has_profile(ps, id)) ==> ps[spec_connect_profile(sel, ps)->0].id
            == sel->0,
{
    if let Some(id) = sel {
        lemma_first_with_id(ps, id, 0);
        if has_profile(ps, id) {
            let w = choose|i: int| 0 <= i < ps.len() && ps[i].id == id;
            assert(ps[w].id == id);
        }
    }
}

/// The settings with `selected` as the selected profile.
pub fn settings_with_selection(settings: Settings, selected: Option<String>) -> (r: Settings)
    ensures
        r@.selected_profile_id == opt_text(selected),
        r.connection_mode == settings.connection_mode,
{
    Settings { selected_profile_id: selected, connection_mode: settings.connection_mode }
}

/// The settings with `mode` as the connection mode.
pub fn settings_with_mode(settings: Settings, mode: ConnectionMode) -> (r: Settings)
    ensures
        r@.selected_profile_id == settings@.selected_profile_id,
        r.connection_mode == mode,
{
    Settings { selected_profile_id: settings.selected_profile_id, connection_mode: mode }
}

/// The profile a connection uses: the selected one while it exists,
/// otherwise the first.
pub open spec fn spec_connect_profile(sel: Option<Seq<char>>, ps: Seq<ProfileView>) -> Option<int> {
    let found = match sel {
        Some(id) => first_with_id(ps, id, 0),
        None => None,
    };
    if found is Some {
        found
    } else if ps.len() > 0 {
        Some(0)
    } else {
        None
    }
}

/// Index of the profile a connection uses.
pub fn choose_connect_profile(profiles: &Vec<ClientProfile>, settings: &Settings) -> (r: Result<
    usize,
    String,
>)
    ensures
        match r {
            Ok(k) => spec_connect_profile(settings@.selected_profile_id, profiles_view(profiles@))
                == Some(k as int) && k < profiles@.len(),
            Err(e) => spec_connect_profile(settings@.selected_profile_id, profiles_view(profiles@))
                is None && e@ == "no profile selected"@,
        },
{
    let found = match &settings.selected_profile_id {
        Some(id) => find_profile(profiles, id.as_str()),
        None => None,
    };
    match found {
        Some(k) => Ok(k),
        None => if profiles.len() > 0 {
            Ok(0)
        } else {
            Err(String::from_str("no profile selected"))
        },
    }
}

/// `host:port`.
pub open spec fn host_port(host: Seq<char>, port: u16) -> Seq<char> {
    host + ":"@ + decimal(port as nat)
}

fn host_port_text(host: &str, port: u16) -> (s: String)
    ensures
        s@ == host_port(host@, port),
{
    let mut s = String::from_str(host);
    s.append(":");
    s.append(decimal_string(port as u128).as_str());
    s
}

/// The SOCKS and HTTP listener addresses for `mode`: VPN mode always
/// listens on loopback; the other modes use the profile's hosts.
pub open spec fn spec_listener_addresses(p: ProfileView, mode: ConnectionMode) -> (
    Seq<char>,
    Seq<char>,
) {
    if mode == ConnectionMode::Vpn {
        (host_port("127.0.0.1"@, p.socks_port), host_port("127.0.0.1"@, p.http_port))
    } else {
        (host_port(p.socks_host, p.socks_port), host_port(p.http_host, p.http_port))
    }
}

pub fn listener_addresses_for_mode(profile: &ClientProfile, mode: ConnectionMode) -> (r: (
    String,
    String,
))
    ensures
        (r.0@, r.1@) == spec_listener_addresses(profile@, mode),
{
    match mode {
        ConnectionMode::Vpn => (
            host_port_text("127.0.0.1", profile.socks_port),
            host_port_text("127.0.0.1", profile.http_port),
        ),
        _ => (
            host_port_text(profile.socks_host.as_str(), profile.socks_port),
            host_port_text(profile.http_host.as_str(), profile.http_port),
        ),
    }
}

/// A loaded profile whose listeners bind to all interfaces is marked as
/// shared with the LAN.
pub open spec fn spec_loaded_profile(p: ProfileView) -> ProfileView {
    if p.socks_host == "0.0.0.0"@ || p.http_host == "0.0.0.0"@ {
        ProfileView { share_lan: true, ..p }
    } else {
        p
    }
}

/// Marks the loaded profiles that bind to all interfaces as shared with
/// the LAN.
pub fn normalize_loaded_profiles(profiles: Vec<ClientProfile>) -> (r: Vec<ClientProfile>)
    ensures
        r@.len() == profiles@.len(),
        forall|i: int| 0 <= i < r@.len() ==> #[trigger] r@[i]@ == spec_loaded_profile(profiles@[i]@),
{
    let mut out: Vec<ClientProfile> = Vec::new();
    for i in 0..profiles.len()
        invariant
            out@.len() == i,
            forall|j: int| 0 <= j < i ==> #[trigger] out@[j]@ == spec_loaded_profile(profiles@[j]@),
    {
        let mut p = profiles[i].duplicate();
        if same_text(p.socks_host.as_str(), "0.0.0.0") || same_text(p.http_host.as_str(), "0.0.0.0") {
            p.share_lan = true;
        }
        out.push(p);
    }
    out
}

/// The profiles as loaded from what reading the profiles file gave: the
/// profiles it held, each marked as shared with the LAN when it listens on
/// all interfaces; none when there is no profiles file yet; otherwise the
/// read error.
pub fn load_profiles(read: Result<Vec<ClientProfile>, String>, file_exists: bool) -> (r: Result<
    Vec<ClientProfile>,
    String,
>)
    ensures
        r is Ok <==> (read is Ok || !file_exists),
        match (read, r) {
            (Ok(stored), Ok(loaded)) => loaded@.len() == stored@.len() && forall|i: int|
                0 <= i < loaded@.len() ==> #[trigger] loaded@[i]@ == spec_loaded_profile(
                    stored@[i]@,
                ),
            (Err(_), Ok(loaded)) => loaded@.len() == 0,
            (Err(e), Err(f)) => f == e,
            _ => true,
        },
{
    match read {
        Ok(stored) => Ok(normalize_loaded_profiles(stored)),
        Err(error) => if file_exists {
            Err(error)
        } else {
            Ok(Vec::new())
        },
    }
}

/// The settings as loaded from what reading the settings file gave: the
/// stored settings; the defaults when there is no settings file yet;
/// otherwise the read error.
pub fn load_settings(read: Result<Settings, String>, file_exists: bool) -> (r: Result<Settings, String>)
    ensures
        r is Ok <==> (read is Ok || !file_exists),
        match (read, r) {
            (Ok(stored), Ok(loaded)) => loaded == stored,
            (Err(_), Ok(loaded)) => loaded@.selected_profile_id is None && loaded.connection_mode
                == ConnectionMode::Proxy,
            (Err(e), Err(f)) => f == e,
            _ => true,
        },
{
    match read {
        Ok(stored) => Ok(stored),
        Err(error) => if file_exists {
            Err(error)
        } else {
            Ok(Settings::default())
        },
    }
}

/// The configuration text to store for pasted `raw` text: the one-line
/// configuration it carries, or else the trimmed text itself.
pub open spec fn spec_stored_config(raw: Seq<char>) -> Seq<char> {
    match spec_extract_inline_config(trim(raw)) {
        Some(c) => c,
        None => trim(raw),
    }
}

/// The configuration text to store for pasted text; blank text is refused.
pub fn prepare_raw_config(raw_config: &str) -> (r: Result<String, String>)
    ensures
        match r {
            Ok(s) => trim(raw_config@).len() > 0 && s@ == spec_stored_config(raw_config@),
            Err(e) => trim(raw_config@).len() == 0 && e@ == "client config is empty"@,
        },
{
    let trimmed = trim_str(raw_config);
    if trimmed.as_str().unicode_len() == 0 {
        return Err(String::from_str("client config is empty"));
    }
    match extract_inline_config(trimmed.as_str()) {
        Some(c) => Ok(c),
        None => Ok(trimmed),
    }
}

/// The string fields of a decoded client configuration that a profile
/// keeps, each absent when the configuration has no string there.
pub struct ConfigFields {
    pub route_mode: Option<String>,
    pub google_ip: Option<String>,
    pub drive_space: Option<String>,
    pub drive_folder_id: Option<String>,
}

/// What an imported configuration contributes to its profile.
pub struct ImportedRoute {
    pub route_mode: String,
    pub google_ip: String,
    pub drive_space: String,
    pub drive_folder_id: String,
}

pub open spec fn text_or(o: Option<String>, d: Seq<char>) -> Seq<char> {
    match o {
        Some(s) => s@,
        None => d,
    }
}

fn string_or(o: &Option<String>, d: &str) -> (s: String)
    ensures
        s@ == text_or(*o, d@),
{
    match o {
        Some(s) => s.clone(),
        None => String::from_str(d),
    }
}

/// The checks an imported configuration must pass, in order: a control IP
/// that parses, a Drive mailbox (the app-data folder or a folder id), and
/// different SOCKS and HTTP ports.
pub open spec fn spec_import_error(f: ConfigFields, socks_port: u16, http_port: u16) -> Option<
    Seq<char>,
> {
    if spec_parse_ip(google_ip_input(text_or(f.google_ip, ""@))) is None {
        Some("profile route.google_ip must be an IP address"@)
    } else if text_or(f.drive_space, ""@) != "appDataFolder"@ && text_or(f.drive_folder_id, ""@).len()
        == 0 {
        Some("client config is missing a Drive mailbox"@)
    } else if socks_port == http_port {
        Some("SOCKS and HTTP proxy ports must be different"@)
    } else {
        None
    }
}

/// Checks an imported configuration and takes what the profile keeps:
/// the route mode (`direct` when absent), the canonical control IP, and the
/// Drive mailbox.
pub fn import_route(fields: &ConfigFields, socks_port: u16, http_port: u16) -> (r: Result<
    ImportedRoute,
    String,
>)
    ensures
        match r {
            Ok(route) => {
                &&& spec_import_error(*fields, socks_port, http_port) is None
                &&& route.route_mode@ == text_or(fields.route_mode, "direct"@)
                &&& spec_parse_ip(google_ip_input(text_or(fields.google_ip, ""@))) matches Some(a)
                    && route.google_ip@ == spec_ip_text(a)
                &&& route.drive_space@ == text_or(fields.drive_space, ""@)
                &&& route.drive_folder_id@ == text_or(fields.drive_folder_id, ""@)
            },
            Err(e) => spec_import_error(*fields, socks_port, http_port) == Some(e@),
        },
{
    let route_mode = string_or(&fields.route_mode, "direct");
    let google_ip_text = string_or(&fields.google_ip, "");
    let google_ip = canonical_google_ip(google_ip_text.as_str())?;
    let drive_space = string_or(&fields.drive_space, "");
    let drive_folder_id = string_or(&fields.drive_folder_id, "");
    if !same_text(drive_space.as_str(), "appDataFolder") && drive_folder_id.as_str().unicode_len()
        == 0 {
        return Err(String::from_str("client config is missing a Drive mailbox"));
    }
    if socks_port == http_port {
        return Err(String::from_str("SOCKS and HTTP proxy ports must be different"));
    }
    Ok(ImportedRoute { route_mode, google_ip, drive_space, drive_folder_id })
}

/// The profile name: the trimmed given name, or `Skirk profile` when blank.
pub open spec fn spec_profile_name(name: Seq<char>) -> Seq<char> {
    if trim(name).len() == 0 {
        "Skirk profile"@
    } else {
        trim(name)
    }
}

pub fn profile_display_name(name: &str) -> (s: String)
    ensures
        s@ == spec_profile_name(name@),
{
    let t = trim_str(name);
    if t.as_str().unicode_len() == 0 {
        String::from_str("Skirk profile")
    } else {
        t
    }
}

/// The identifier of a profile created at `millis` milliseconds since the
/// Unix epoch.
pub fn new_profile_id(millis: u128) -> (s: String)
    ensures
        s@ == "profile-"@ + decimal(millis as nat),
{
    let mut s = String::from_str("profile-");
    s.append(decimal_string(millis).as_str());
    s
}

/// The file name of a profile's stored configuration: `.skirk` for a
/// one-line configuration, `.json` otherwise.
pub fn config_file_name(id: &str, stored_config: &str) -> (s: String)
    ensures
        s@ == id@ + if spec_extract_inline_config(stored_config@) is Some {
            ".skirk"@
        } else {
            ".json"@
        },
{
    let mut s = String::from_str(id);
    if crate::inline_config::looks_like_inline_config(stored_config) {
        s.append(".skirk");
    } else {
        s.append(".json");
    }
    s
}

/// The profile an import creates.
pub open spec fn spec_imported_profile(
    id: Seq<char>,
    name: Seq<char>,
    config_path: Seq<char>,
    socks_port: u16,
    http_port: u16,
    share_lan: bool,
    route_mode: Seq<char>,
    google_ip: Seq<char>,
    drive_space: Seq<char>,
    drive_folder_id: Seq<char>,
) -> ProfileView {
    let host = if share_lan {
        "0.0.0.0"@
    } else {
        "127.0.0.1"@
    };
    ProfileView {
        id,
        name: spec_profile_name(name),
        config_path,
        socks_host: host,
        socks_port,
        http_host: host,
        http_port,
        share_lan,
        route_mode,
        google_ip,
        drive_space,
        drive_folder_id,
        performance: preset_settings(PerformancePreset::Recommended),
    }
}

/// The profile an import creates: listeners on all interfaces when shared
/// with the LAN, on loopback otherwise, and the recommended performance
/// preset.
pub fn build_imported_profile(
    id: String,
    name: &str,
    config_path: String,
    socks_port: u16,
    http_port: u16,
    share_lan: bool,
    route: ImportedRoute,
) -> (p: ClientProfile)
    ensures
        p@ == spec_imported_profile(
            id@,
            name@,
            config_path@,
            socks_port,
            http_port,
            share_lan,
            route.route_mode@,
            route.google_ip@,
            route.drive_space@,
            route.drive_folder_id@,
        ),
{
    let host = if share_lan {
        "0.0.0.0"
    } else {
        "127.0.0.1"
    };
    ClientProfile {
        id,
        name: profile_display_name(name),
        config_path,
        socks_host: String::from_str(host),
        socks_port,
        http_host: String::from_str(host),
        http_port,
        share_lan,
        route_mode: route.route_mode,
        google_ip: route.google_ip,
        drive_space: route.drive_space,
        drive_folder_id: route.drive_folder_id,
        performance: default_performance_settings(),
    }
}

/// A stored configuration read back: trimmed, and refused when blank.
pub fn stored_config_text(text: &str) -> (r: Result<String, String>)
    ensures
        match r {
            Ok(s) => s@ == trim(text@) && s@.len() > 0,
            Err(e) => trim(text@).len() == 0 && e@ == "profile config is empty"@,
        },
{
    let t = trim_str(text);
    if t.as_str().unicode_len() == 0 {
        Err(String::from_str("profile config is empty"))
    } else {
        Ok(t)
    }
}

/// `ps` with the performance of the first profile named `id` replaced.
pub open spec fn spec_with_performance(
    ps: Seq<ProfileView>,
    id: Seq<char>,
    perf: ClientPerformanceSettings,
) -> Option<Seq<ProfileView>> {
    match first_with_id(ps, id, 0) {
        Some(k) => Some(ps.update(k, ProfileView { performance: perf, ..ps[k] })),
        None => None,
    }
}

/// Checks `performance` and stores it in the profile named `profile_id`.
pub fn apply_profile_performance(
    profiles: Vec<ClientProfile>,
    profile_id: &str,
    performance: ClientPerformanceSettings,
) -> (r: Result<Vec<ClientProfile>, String>)
    ensures
        match r {
            Ok(ps) => crate::performance::spec_normalize(performance) matches Ok(n) && Some(
                profiles_view(ps@),
            ) == spec_with_performance(profiles_view(profiles@), profile_id@, n),
            Err(e) => match crate::performance::spec_normalize(performance) {
                Err(m) => e@ == m,
                Ok(n) => spec_with_performance(profiles_view(profiles@), profile_id@, n) is None
                    && e@ == "profile was not found"@,
            },
        },
{
    let performance = crate::performance::normalize_performance_settings(performance)?;
    let k = match find_profile(&profiles, profile_id) {
        Some(k) => k,
        None => return Err(String::from_str("profile was not found")),
    };
    let mut out: Vec<ClientProfile> = Vec::new();
    let ghost ps = profiles_view(profiles@);
    let ghost target = ps.update(k as int, ProfileView { performance, ..ps[k as int] });
    for i in 0..profiles.len()
        invariant
            ps == profiles_view(profiles@),
            k < profiles@.len(),
            target == ps.update(k as int, ProfileView { performance, ..ps[k as int] }),
            out@.len() == i,
            forall|j: int| 0 <= j < i ==> #[trigger] out@[j]@ == target[j],
    {
        let mut p = profiles[i].duplicate();
        if i == k {
            p.performance = performance;
        }
        assert(ps[i as int] == profiles@[i as int]@);
        out.push(p);
    }
    assert(profiles_view(out@) =~= target);
    Ok(out)
}

} // verus!
