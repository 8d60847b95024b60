use vstd::prelude::*;

use crate::double::Double;
use crate::shared::workload::WorkloadPattern;
use crate::text::Text;

verus! {

/// Why a load generator cannot run.
#[derive(Clone, Copy, Debug, PartialEq, Eq, Structural)]
pub enum LoadgenError {
    /// No base URL is given.
    NoBaseUrl,
    /// There is no pattern of that name.
    UnknownPattern,
}

/// Sends requests to a service, as many each second as a pattern asks for, to its endpoints in
/// turn.
#[derive(Clone, Debug)]
pub struct Loadgen {
    pub endpoints: Vec<String>,
    pub pattern: WorkloadPattern,
    pub duration_s: u32,
    /// Counts the requests, and starts again at zero when it is full.
    pub rr_index: usize,
}

/// What the patterns are made of.
#[derive(Clone, Copy, Debug)]
pub struct PatternSettings {
    pub base_rps: Double,
    pub peak_rps: Double,
    pub step_to: Double,
    pub step_at: u32,
    pub burst_start: u32,
    pub burst_end: u32,
    pub burst2_start: u32,
    pub burst2_end: u32,
    pub ramp_duration: u32,
    pub period: u32,
    pub wave_center: Double,
}

impl PatternSettings {
    /// The pattern of a name.
    pub open spec fn named(self, name: Seq<char>) -> Option<WorkloadPattern> {
        if name == "steady"@ {
            Some(WorkloadPattern::Steady { rps: self.base_rps })
        } else if name == "step"@ {
            Some(
                WorkloadPattern::Step {
                    base: self.base_rps,
                    step_to: self.step_to,
                    step_at: self.step_at,
                },
            )
        } else if name == "burst"@ {
            Some(
                WorkloadPattern::Burst {
                    base: self.base_rps,
                    peak: self.peak_rps,
                    burst_start: self.burst_start,
                    burst_end: self.burst_end,
                },
            )
        } else if name == "ramp"@ {
            Some(
                WorkloadPattern::Ramp {
                    base: self.base_rps,
                    peak: self.peak_rps,
                    ramp_duration: self.ramp_duration,
                },
            )
        } else if name == "sawtooth"@ {
            Some(
                WorkloadPattern::Sawtooth {
                    base: self.base_rps,
                    peak: self.peak_rps,
                    period: self.period,
                },
            )
        } else if name == "wave"@ {
            Some(
                WorkloadPattern::Wave {
                    center: self.wave_center,
                    amplitude: self.peak_rps,
                    period_s: self.period,
                },
            )
        } else if name == "double-burst"@ {
            Some(
                WorkloadPattern::DoubleBurst {
                    base: self.base_rps,
                    peak: self.peak_rps,
                    burst1_start: self.burst_start,
                    burst1_end: self.burst_end,
                    burst2_start: self.burst2_start,
                    burst2_end: self.burst2_end,
                },
            )
        } else {
            None
        }
    }
}

impl Loadgen {
    /// The URL of an endpoint: one slash joins the two parts.
    pub open spec fn url(base: Seq<char>, endpoint: Seq<char>) -> Seq<char> {
        Text::without_trailing(base, '/') + "/"@ + Text::without_leading(endpoint, '/')
    }

    /// The URLs of an endpoint, one for each base URL that is not blank.
    pub open spec fn urls(bases: Seq<Seq<char>>, endpoint: Seq<char>) -> Seq<Seq<char>>
        decreases bases.len(),
    {
        if bases.len() == 0 {
            Seq::empty()
        } else {
            let earlier = Self::urls(bases.drop_last(), endpoint);
            let base = Text::trimmed(bases.last());
            if base.len() == 0 {
                earlier
            } else {
                earlier.push(Self::url(base, endpoint))
            }
        }
    }

    /// The URLs of an endpoint of services whose base URLs are separated by commas.
    pub open spec fn all_urls(base_url: Seq<char>, endpoint: Seq<char>) -> Seq<Seq<char>> {
        Self::urls(Text::pieces(base_url, ','), endpoint)
    }

    pub open spec fn wf(self) -> bool {
        self.endpoints@.len() > 0
    }

    /// Is this a load generator that has not sent anything?
    pub open spec fn is_ready(
        self,
        base_url: Seq<char>,
        endpoint: Seq<char>,
        pattern: WorkloadPattern,
        duration_s: u32,
    ) -> bool {
        &&& Text::texts(self.endpoints@) == Self::all_urls(base_url, endpoint)
        &&& self.endpoints@.len() > 0
        &&& self.pattern == pattern
        &&& self.duration_s == duration_s
        &&& self.rr_index == 0
    }

    /// What comes of setting up a load generator.
    pub open spec fn set_up(
        r: Result<Loadgen, LoadgenError>,
        base_url: Seq<char>,
        endpoint: Seq<char>,
        pattern: WorkloadPattern,
        duration_s: u32,
    ) -> bool {
        if Self::all_urls(base_url, endpoint).len() == 0 {
            r == Err::<Loadgen, LoadgenError>(LoadgenError::NoBaseUrl)
        } else {
            r matches Ok(loadgen) && loadgen.is_ready(base_url, endpoint, pattern, duration_s)
        }
    }

    /// The URLs of an endpoint of services whose base URLs are separated by commas.
    fn endpoint_urls(base_url: &str, endpoint: &str) -> (r: Vec<String>)
        ensures
            Text::texts(r@) == Self::all_urls(base_url@, endpoint@),
    {
        let chars: Vec<char> = Text::chars(base_url);
        let name: Vec<char> = Text::chars(endpoint);
        let pieces: Vec<Vec<char>> = Text::split(chars.as_slice(), ',');
        let ghost bases = Text::contents(pieces@);
        let last: String = Text::string(Text::trim_leading(name.as_slice(), '/'));
        let mut r: Vec<String> = Vec::new();
        let mut i: usize = 0;
        assert(bases.take(0) =~= Seq::<Seq<char>>::empty());
        assert(Text::texts(r@) =~= Self::urls(bases.take(0), endpoint@));
        while i < pieces.len()
            invariant
                i <= pieces@.len(),
                bases == Text::contents(pieces@),
                last@ == Text::without_leading(endpoint@, '/'),
                Text::texts(r@) == Self::urls(bases.take(i as int), endpoint@),
            decreases pieces@.len() - i,
        {
            proof {
                assert(bases[i as int] == pieces@[i as int]@);
                assert(bases.take(i + 1).drop_last() =~= bases.take(i as int));
                assert(bases.take(i + 1).last() == pieces@[i as int]@);
            }
            let base: &[char] = Text::trim(pieces[i].as_slice());
            if base.len() > 0 {
                let ghost before = r@;
                let url: String = Text::string(Text::trim_trailing(base, '/')).concat("/").concat(
                    last.as_str(),
                );
                r.push(url);
                assert(Text::texts(r@) =~= Text::texts(before).push(url@));
            }
            i = i + 1;
        }
        assert(bases.take(i as int) =~= bases);
        r
    }

    /// A load generator for an endpoint of one or more services, whose base URLs are separated by
    /// commas.
    pub fn new(base_url: &str, endpoint: &str, pattern: WorkloadPattern, duration_s: u32) -> (r:
        Result<Loadgen, LoadgenError>)
        ensures
            Self::set_up(r, base_url@, endpoint@, pattern, duration_s),
    {
        let endpoints: Vec<String> = Self::endpoint_urls(base_url, endpoint);
        assert(Text::texts(endpoints@).len() == endpoints@.len());
        if endpoints.len() == 0 {
            Err(LoadgenError::NoBaseUrl)
        } else {
            Ok(Loadgen { endpoints, pattern, duration_s, rr_index: 0 })
        }
    }

    /// The requests to send in a second with the given rate.
    pub fn requests(rate: Double) -> (r: u32)
        ensures
            r == rate@.rounded(u32::MAX as nat),
    {
        rate.round_to_u32()
    }

    /// The URL for the next request: the endpoints take turns.
    pub fn next_url(&mut self) -> (r: String)
        requires
            old(self).wf(),
        ensures
            final(self).wf(),
            r@ == old(self).endpoints@[old(self).rr_index as int
                % old(self).endpoints@.len() as int]@,
            *final(self) == (Loadgen {
                rr_index: old(self).rr_index.wrapping_add(1),
                ..*old(self)
            }),
    {
        let r: String = self.endpoints[self.rr_index % self.endpoints.len()].clone();
        self.rr_index = self.rr_index.wrapping_add(1);
        r
    }
}

/// What a user who asked for the named pattern is told.
pub fn error_message(error: LoadgenError, pattern: &str) -> (r: String)
    ensures
        r@ == (match error {
            LoadgenError::NoBaseUrl => "Loadgen error: no valid base_url provided to loadgen"@,
            LoadgenError::UnknownPattern => "Unknown pattern: "@ + pattern@
                + " (expected steady|step|burst|ramp|sawtooth|wave|double-burst)"@,
        }),
{
    match error {
        LoadgenError::NoBaseUrl => String::from_str(
            "Loadgen error: no valid base_url provided to loadgen",
        ),
        LoadgenError::UnknownPattern => String::from_str("Unknown pattern: ").concat(
            pattern,
        ).concat(" (expected steady|step|burst|ramp|sawtooth|wave|double-burst)"),
    }
}

pub fn steady(base_url: &str, endpoint: &str, rps: Double, duration_s: u32) -> (r: Result<
    Loadgen,
    LoadgenError,
>)
    ensures
        Loadgen::set_up(r, base_url@, endpoint@, WorkloadPattern::Steady { rps }, duration_s),
{
    Loadgen::new(base_url, endpoint, WorkloadPattern::Steady { rps }, duration_s)
}

pub fn step(
    base_url: &str,
    endpoint: &str,
    base: Double,
    step_to: Double,
    step_at: u32,
    duration_s: u32,
) -> (r: Result<Loadgen, LoadgenError>)
    ensures
        Loadgen::set_up(
            r,
            base_url@,
            endpoint@,
            WorkloadPattern::Step { base, step_to, step_at },
            duration_s,
        ),
{
    Loadgen::new(base_url, endpoint, WorkloadPattern::Step { base, step_to, step_at }, duration_s)
}

pub fn burst(
    base_url: &str,
    endpoint: &str,
    base: Double,
    peak: Double,
    burst_start: u32,
    burst_end: u32,
    duration_s: u32,
) -> (r: Result<Loadgen, LoadgenError>)
    ensures
        Loadgen::set_up(
            r,
            base_url@,
            endpoint@,
            WorkloadPattern::Burst { base, peak, burst_start, burst_end },
            duration_s,
        ),
{
    Loadgen::new(
        base_url,
        endpoint,
        WorkloadPattern::Burst { base, peak, burst_start, burst_end },
        duration_s,
    )
}

pub fn ramp(
    base_url: &str,
    endpoint: &str,
    base: Double,
    peak: Double,
    ramp_duration: u32,
    duration_s: u32,
) -> (r: Result<Loadgen, LoadgenError>)
    ensures
        Loadgen::set_up(
            r,
            base_url@,
            endpoint@,
            WorkloadPattern::Ramp { base, peak, ramp_duration },
            duration_s,
        ),
{
    Loadgen::new(
        base_url,
        endpoint,
        WorkloadPattern::Ramp { base, peak, ramp_duration },
        duration_s,
    )
}

pub fn sawtooth(
    base_url: &str,
    endpoint: &str,
    base: Double,
    peak: Double,
    period: u32,
    duration_s: u32,
) -> (r: Result<Loadgen, LoadgenError>)
    ensures
        Loadgen::set_up(
            r,
            base_url@,
            endpoint@,
            WorkloadPattern::Sawtooth { base, peak, period },
            duration_s,
        ),
{
    Loadgen::new(base_url, endpoint, WorkloadPattern::Sawtooth { base, peak, period }, duration_s)
}

pub fn wave(
    base_url: &str,
    endpoint: &str,
    center: Double,
    amplitude: Double,
    period_s: u32,
    duration_s: u32,
) -> (r: Result<Loadgen, LoadgenError>)
    ensures
        Loadgen::set_up(
            r,
            base_url@,
            endpoint@,
            WorkloadPattern::Wave { center, amplitude, period_s },
            duration_s,
        ),
{
    Loadgen::new(
        base_url,
        endpoint,
        WorkloadPattern::Wave { center, amplitude, period_s },
        duration_s,
    )
}

pub fn double_burst(
    base_url: &str,
    endpoint: &str,
    base: Double,
    peak: Double,
    burst1_start: u32,
    burst1_end: u32,
    burst2_start: u32,
    burst2_end: u32,
    duration_s: u32,
) -> (r: Result<Loadgen, LoadgenError>)
    ensures
        Loadgen::set_up(
            r,
            base_url@,
            endpoint@,
            WorkloadPattern::DoubleBurst {
                base,
                peak,
                burst1_start,
                burst1_end,
                burst2_start,
                burst2_end,
            },
            duration_s,
        ),
{
    Loadgen::new(
        base_url,
        endpoint,
        WorkloadPattern::DoubleBurst {
            base,
            peak,
            burst1_start,
            burst1_end,
            burst2_start,
            burst2_end,
        },
        duration_s,
    )
}

/// A load generator with the pattern of the given name.
pub fn with_pattern(
    base_url: &str,
    endpoint: &str,
    name: &str,
    settings: &PatternSettings,
    duration_s: u32,
) -> (r: Result<Loadgen, LoadgenError>)
    ensures
        match settings.named(name@) {
            Some(pattern) => Loadgen::set_up(r, base_url@, endpoint@, pattern, duration_s),
            None => r == Err::<Loadgen, LoadgenError>(LoadgenError::UnknownPattern),
        },
{
    let chars: Vec<char> = Text::chars(name);
    let n: &[char] = chars.as_slice();
    let s: PatternSettings = *settings;
    if Text::same(n, "steady") {
        steady(base_url, endpoint, s.base_rps, duration_s)
    } else if Text::same(n, "step") {
        step(base_url, endpoint, s.base_rps, s.step_to, s.step_at, duration_s)
    } else if Text::same(n, "burst") {
        burst(
            base_url,
            endpoint,
            s.base_rps,
            s.peak_rps,
            s.burst_start,
            s.burst_end,
            duration_s,
        )
    } else if Text::same(n, "ramp") {
        ramp(base_url, endpoint, s.base_rps, s.peak_rps, s.ramp_duration, duration_s)
    } else if Text::same(n, "sawtooth") {
        sawtooth(base_url, endpoint, s.base_rps, s.peak_rps, s.period, duration_s)
    } else if Text::same(n, "wave") {
        wave(base_url, endpoint, s.wave_center, s.peak_rps, s.period, duration_s)
    } else if Text::same(n, "double-burst") {
        double_burst(
            base_url,
            endpoint,
            s.base_rps,
            s.peak_rps,
            s.burst_start,
            s.burst_end,
            s.burst2_start,
            s.burst2_end,
            duration_s,
        )
    } else {
        Err(LoadgenError::UnknownPattern)
    }
}

/// Among any requests in a row, as many as there are endpoints, each endpoint gets one.
pub proof fn law_each_endpoint_gets_its_turn(first: nat, endpoints: nat, endpoint: nat)
    requires
        endpoint < endpoints,
    ensures
        exists|i: nat| i < endpoints && #[trigger] ((first + i) % endpoints) == endpoint,
        forall|i: nat, j: nat|
            i < j < endpoints ==> #[trigger] ((first + i) % endpoints) != #[trigger] ((first + j)
                % endpoints),
{
    let n = endpoints as int;
    let at = first as int % n;
    let i: int = if at <= endpoint {
        endpoint - at
    } else {
        endpoint - at + n
    };
    vstd::arithmetic::div_mod::lemma_fundamental_div_mod(first as int, n);
    let q = first as int / n;
    if at <= endpoint {
        vstd::arithmetic::div_mod::lemma_fundamental_div_mod_converse(
            first + i,
            n,
            q,
            endpoint as int,
        );
    } else {
        assert((q + 1) * n == q * n + n) by (nonlinear_arith);
        assert(n * (q + 1) == (q + 1) * n) by (nonlinear_arith);
        assert(n * q == q * n) by (nonlinear_arith);
        vstd::arithmetic::div_mod::lemma_fundamental_div_mod_converse(
            first + i,
            n,
            q + 1,
            endpoint as int,
        );
    }
    assert((first + i as nat) % endpoints == endpoint);
    assert forall|i: nat, j: nat|
        i < j < endpoints implies #[trigger] ((first + i) % endpoints) != #[trigger] ((first + j)
        % endpoints) by {
        if (first + i) % endpoints == (first + j) % endpoints {
            let r = ((first + i) % endpoints) as int;
            let a = (first + i) as int / n;
            let b = (first + j) as int / n;
            vstd::arithmetic::div_mod::lemma_fundamental_div_mod((first + i) as int, n);
            vstd::arithmetic::div_mod::lemma_fundamental_div_mod((first + j) as int, n);
            assert(j - i == n * b - n * a);
            assert(n * b - n * a == n * (b - a)) by (nonlinear_arith);
            assert(false) by (nonlinear_arith)
                requires
                    0 < n * (b - a) < n,
                    n > 0,
            ;
        }
    }
}

} // verus!
