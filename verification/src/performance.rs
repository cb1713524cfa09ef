//! Sidecar polling and concurrency settings: the named presets and the
//! bounds that a custom combination must respect.
use vstd::prelude::*;

verus! {

/// A named performance profile, or `Custom` for user-chosen values.
#[derive(Clone, Copy, Debug, PartialEq, Eq, Structural)]
pub enum PerformancePreset {
    LowerUsage,
    Recommended,
    Responsive,
    BulkTransfer,
    Custom,
}

/// Polling and worker settings handed to the client sidecar.
#[derive(Clone, Copy, Debug, PartialEq, Eq, Structural)]
pub struct ClientPerformanceSettings {
    pub preset: PerformancePreset,
    pub poll_ms: u16,
    pub upload_concurrency: u16,
    pub download_concurrency: u16,
    pub burst_poll: bool,
    pub burst_poll_ms: u16,
    pub burst_poll_window_ms: u16,
}

/// Smallest check interval a custom combination may use, in milliseconds.
pub const CUSTOM_MIN_POLL_MS: u16 = 250;
/// Largest number of upload workers a custom combination may use.
pub const CUSTOM_MAX_UPLOAD_WORKERS: u16 = 64;
/// Largest number of download workers a custom combination may use.
pub const CUSTOM_MAX_DOWNLOAD_WORKERS: u16 = 64;

/// The settings each preset stands for.
pub open spec fn preset_settings(preset: PerformancePreset) -> ClientPerformanceSettings {
    let base = ClientPerformanceSettings {
        preset,
        poll_ms: 1000,
        upload_concurrency: 8,
        download_concurrency: 16,
        burst_poll: false,
        burst_poll_ms: 75,
        burst_poll_window_ms: 5000,
    };
    match preset {
        PerformancePreset::LowerUsage => ClientPerformanceSettings {
            poll_ms: 2000,
            upload_concurrency: 4,
            download_concurrency: 8,
            ..base
        },
        PerformancePreset::Recommended => base,
        PerformancePreset::Responsive => ClientPerformanceSettings { burst_poll: true, ..base },
        PerformancePreset::BulkTransfer => ClientPerformanceSettings {
            upload_concurrency: 16,
            download_concurrency: 32,
            ..base
        },
        PerformancePreset::Custom => base,
    }
}

/// Every value of `s` lies in the range that a custom combination allows.
pub open spec fn within_custom_bounds(s: ClientPerformanceSettings) -> bool {
    &&& CUSTOM_MIN_POLL_MS <= s.poll_ms <= 60000
    &&& 1 <= s.upload_concurrency <= CUSTOM_MAX_UPLOAD_WORKERS
    &&& 1 <= s.download_concurrency <= CUSTOM_MAX_DOWNLOAD_WORKERS
    &&& 25 <= s.burst_poll_ms <= 1000
    &&& 1000 <= s.burst_poll_window_ms <= 30000
}

/// What `normalize_performance_settings` gives for `s`: the preset's own
/// values for a named preset, `s` itself for an in-range custom
/// combination, and the message for the first value out of range otherwise.
pub open spec fn spec_normalize(s: ClientPerformanceSettings) -> Result<
    ClientPerformanceSettings,
    Seq<char>,
> {
    if s.preset != PerformancePreset::Custom {
        Ok(preset_settings(s.preset))
    } else if s.poll_ms < CUSTOM_MIN_POLL_MS || s.poll_ms > 60000 {
        Err("check interval must be between 250 ms and 60000 ms"@)
    } else if s.upload_concurrency < 1 || s.upload_concurrency > CUSTOM_MAX_UPLOAD_WORKERS {
        Err("upload workers must be between 1 and 64"@)
    } else if s.download_concurrency < 1 || s.download_concurrency > CUSTOM_MAX_DOWNLOAD_WORKERS {
        Err("download workers must be between 1 and 64"@)
    } else if s.burst_poll_ms < 25 || s.burst_poll_ms > 1000 {
        Err("burst interval must be between 25 ms and 1000 ms"@)
    } else if s.burst_poll_window_ms < 1000 || s.burst_poll_window_ms > 30000 {
        Err("burst window must be between 1000 ms and 30000 ms"@)
    } else {
        Ok(s)
    }
}

pub open spec fn result_view<T>(r: Result<T, String>) -> Result<T, Seq<char>> {
    match r {
        Ok(v) => Ok(v),
        Err(e) => Err(e@),
    }
}

/// The settings that `preset` stands for.
pub fn performance_for_preset(preset: PerformancePreset) -> (s: ClientPerformanceSettings)
    ensures
        s == preset_settings(preset),
        s.preset == preset,
        s.burst_poll == (preset == PerformancePreset::Responsive),
        s.burst_poll_ms == 75 && s.burst_poll_window_ms == 5000,
        preset == PerformancePreset::BulkTransfer ==> s.poll_ms == 1000 && s.upload_concurrency == 16
            && s.download_concurrency == 32,
{
    match preset {
        PerformancePreset::LowerUsage => ClientPerformanceSettings {
            preset,
            poll_ms: 2000,
            upload_concurrency: 4,
            download_concurrency: 8,
            burst_poll: false,
            burst_poll_ms: 75,
            burst_poll_window_ms: 5000,
        },
        PerformancePreset::Recommended => ClientPerformanceSettings {
            preset,
            poll_ms: 1000,
            upload_concurrency: 8,
            download_concurrency: 16,
            burst_poll: false,
            burst_poll_ms: 75,
            burst_poll_window_ms: 5000,
        },
        PerformancePreset::Responsive => ClientPerformanceSettings {
            preset,
            poll_ms: 1000,
            upload_concurrency: 8,
            download_concurrency: 16,
            burst_poll: true,
            burst_poll_ms: 75,
            burst_poll_window_ms: 5000,
        },
        PerformancePreset::BulkTransfer => ClientPerformanceSettings {
            preset,
            poll_ms: 1000,
            upload_concurrency: 16,
            download_concurrency: 32,
            burst_poll: false,
            burst_poll_ms: 75,
            burst_poll_window_ms: 5000,
        },
        PerformancePreset::Custom => ClientPerformanceSettings {
            preset,
            poll_ms: 1000,
            upload_concurrency: 8,
            download_concurrency: 16,
            burst_poll: false,
            burst_poll_ms: 75,
            burst_poll_window_ms: 5000,
        },
    }
}

/// The settings a new profile starts with: the recommended preset.
pub fn default_performance_settings() -> (s: ClientPerformanceSettings)
    ensures
        s == preset_settings(PerformancePreset::Recommended),
{
    performance_for_preset(PerformancePreset::Recommended)
}

/// Resolves a named preset to its values and checks a custom combination
/// against the allowed ranges.
pub fn normalize_performance_settings(settings: ClientPerformanceSettings) -> (r: Result<
    ClientPerformanceSettings,
    String,
>)
    ensures
        result_view(r) == spec_normalize(settings),
{
    match settings.preset {
        PerformancePreset::Custom => {},
        _ => return Ok(performance_for_preset(settings.preset)),
    }
    if settings.poll_ms < CUSTOM_MIN_POLL_MS || settings.poll_ms > 60000 {
        return Err(String::from_str("check interval must be between 250 ms and 60000 ms"));
    }
    if settings.upload_concurrency < 1 || settings.upload_concurrency > CUSTOM_MAX_UPLOAD_WORKERS {
        return Err(String::from_str("upload workers must be between 1 and 64"));
    }
    if settings.download_concurrency < 1 || settings.download_concurrency
        > CUSTOM_MAX_DOWNLOAD_WORKERS {
        return Err(String::from_str("download workers must be between 1 and 64"));
    }
    if settings.burst_poll_ms < 25 || settings.burst_poll_ms > 1000 {
        return Err(String::from_str("burst interval must be between 25 ms and 1000 ms"));
    }
    if settings.burst_poll_window_ms < 1000 || settings.burst_poll_window_ms > 30000 {
        return Err(String::from_str("burst window must be between 1000 ms and 30000 ms"));
    }
    Ok(settings)
}

/// How the presets relate: only `Responsive` polls in bursts, and it is
/// `Recommended` otherwise; `BulkTransfer` doubles `Recommended`'s workers
/// at the same interval; `LowerUsage` halves them and polls half as often;
/// every preset bursts at 75 ms for 5000 ms when it bursts, and `Custom`
/// starts from `Recommended`'s values.
pub proof fn lemma_preset_relations()
    ensures
        forall|p: PerformancePreset| #[trigger] preset_settings(p).burst_poll <==> p
            == PerformancePreset::Responsive,
        forall|p: PerformancePreset|
            #[trigger] preset_settings(p).burst_poll_ms == 75 && preset_settings(p).burst_poll_window_ms
                == 5000,
        preset_settings(PerformancePreset::Recommended).poll_ms == 1000,
        preset_settings(PerformancePreset::Recommended).upload_concurrency == 8,
        preset_settings(PerformancePreset::Recommended).download_concurrency == 16,
        ({
            let r = preset_settings(PerformancePreset::Recommended);
            let b = preset_settings(PerformancePreset::BulkTransfer);
            let l = preset_settings(PerformancePreset::LowerUsage);
            let q = preset_settings(PerformancePreset::Responsive);
            let c = preset_settings(PerformancePreset::Custom);
            &&& b.poll_ms == r.poll_ms
            &&& b.upload_concurrency == 2 * r.upload_concurrency
            &&& b.download_concurrency == 2 * r.download_concurrency
            &&& l.poll_ms == 2 * r.poll_ms
            &&& 2 * l.upload_concurrency == r.upload_concurrency
            &&& 2 * l.download_concurrency == r.download_concurrency
            &&& q.poll_ms == r.poll_ms && q.upload_concurrency == r.upload_concurrency
                && q.download_concurrency == r.download_concurrency
            &&& c.poll_ms == r.poll_ms && c.upload_concurrency == r.upload_concurrency
                && c.download_concurrency == r.download_concurrency
        }),
{
}

/// Every preset's values lie within the custom ranges, and carry the preset.
pub proof fn lemma_presets_within_bounds(preset: PerformancePreset)
    ensures
        within_custom_bounds(preset_settings(preset)),
        preset_settings(preset).preset == preset,
{
}

/// A combination is accepted exactly when it is a named preset or lies
/// within the custom ranges; what is accepted always lies within them.
pub proof fn lemma_normalize_accepts_exactly(s: ClientPerformanceSettings)
    ensures
        spec_normalize(s) is Ok <==> (s.preset != PerformancePreset::Custom || within_custom_bounds(
            s,
        )),
        spec_normalize(s) matches Ok(v) ==> within_custom_bounds(v) && v.preset == s.preset,
{
}

/// Normalizing twice changes nothing: settings once accepted are accepted
/// again, as they are.
pub proof fn lemma_normalize_idempotent(s: ClientPerformanceSettings)
    requires
        spec_normalize(s) is Ok,
    ensures
        spec_normalize(spec_normalize(s)->Ok_0) == spec_normalize(s),
{
}

} // verus!
