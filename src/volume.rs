//! The level model: master and per-channel levels, the rules that keep them
//! consistent, and the plan of writes that brings a device up to date.
//!
//! Levels are integers from `0` to `FULL`, where `FULL` is full scale.
use vstd::prelude::*;

use crate::adjust::{Adjust, Channel, Op, Value};
use crate::FULL;

verus! {

/// Below this level (5% of full scale) a commit may be refused while a screen
/// reader runs.
pub const GUARD_LEVEL: u32 = 50_000;

/// Level units in one percent.
pub const PER_PERCENT: u32 = 10_000;

/// A level brought into `0..=FULL`.
pub open spec fn clamped(v: u32) -> u32 {
    if v > FULL {
        FULL
    } else {
        v
    }
}

/// The loudest level of `s`, or `0` when `s` is empty.
pub open spec fn max_level(s: Seq<u32>) -> u32
    decreases s.len(),
{
    if s.len() == 0 {
        0
    } else {
        let m = max_level(s.drop_last());
        if s.last() > m {
            s.last()
        } else {
            m
        }
    }
}

/// The loudest level of `s`, or full scale when `s` is empty.
pub open spec fn loudest_or_full(s: Seq<u32>) -> u32 {
    if s.len() == 0 {
        FULL
    } else {
        max_level(s)
    }
}

/// A channel level scaled from master `m` to master `v`, keeping its ratio to
/// the master, rounded down and capped at full scale.
pub open spec fn scaled(c: u32, v: u32, m: u32) -> u32
    recommends
        m > 0,
{
    let x = (c as int) * (v as int) / (m as int);
    if x > FULL {
        FULL
    } else {
        x as u32
    }
}

/// What a level model holds: current and initial levels.
pub struct VolumeView {
    pub master: u32,
    pub channels: Seq<u32>,
    pub init_master: u32,
    pub init_channels: Seq<u32>,
}

/// Every level is within full scale, and there are as many current channels
/// as initial ones, and no more than a `u32` counts.
pub open spec fn levels_ok(s: VolumeView) -> bool {
    &&& s.master <= FULL
    &&& s.init_master <= FULL
    &&& s.channels.len() == s.init_channels.len()
    &&& s.channels.len() <= u32::MAX
    &&& forall|i: int| 0 <= i < s.channels.len() ==> #[trigger] s.channels[i] <= FULL
    &&& forall|i: int| 0 <= i < s.init_channels.len() ==> #[trigger] s.init_channels[i] <= FULL
}

/// The model after the master is set to `v`. Muting sets every channel to 0;
/// raising the master from 0 sets every channel to the new master; otherwise
/// every channel keeps its ratio to the master.
pub open spec fn set_master_view(s: VolumeView, v: u32) -> VolumeView {
    let v = clamped(v);
    let n = s.channels.len();
    if v == 0 {
        VolumeView {
            master: 0,
            channels: Seq::new(n, |i: int| 0u32),
            init_master: s.init_master,
            init_channels: s.init_channels,
        }
    } else if s.master == 0 {
        VolumeView {
            master: v,
            channels: Seq::new(n, |i: int| v),
            init_master: s.init_master,
            init_channels: s.init_channels,
        }
    } else {
        VolumeView {
            master: v,
            channels: Seq::new(n, |i: int| scaled(s.channels[i], v, s.master)),
            init_master: s.init_master,
            init_channels: s.init_channels,
        }
    }
}

/// The model after channel `c` is set to `v`: the master becomes the loudest
/// channel.
pub open spec fn set_channel_view(s: VolumeView, c: int, v: u32) -> VolumeView {
    let channels = s.channels.update(c, clamped(v));
    VolumeView {
        master: if channels.len() == 0 {
            s.master
        } else {
            max_level(channels)
        },
        channels,
        init_master: s.init_master,
        init_channels: s.init_channels,
    }
}

/// The level that a value stands for in model `s`.
pub open spec fn resolve(val: Value, s: VolumeView) -> u32 {
    match val {
        Value::N(p) => (p as int * PER_PERCENT) as u32,
        Value::MasterChannel => s.master,
        Value::Channel(c) => s.channels[c as int],
    }
}

/// The new level from an old one: set, or raised or lowered within
/// `0..=FULL`.
pub open spec fn step(op: Op, old: u32, val: u32) -> u32 {
    match op {
        Op::Assign => val,
        Op::Inc => if old as int + val as int > FULL {
            FULL
        } else {
            (old + val) as u32
        },
        Op::Dec => if old >= val {
            (old - val) as u32
        } else {
            0
        },
    }
}

/// Every channel that `a` names, as target or as value, exists among `n`
/// channels.
pub open spec fn refs_in_range(a: Adjust, n: nat) -> bool {
    &&& (a.chan matches Channel::N(c) ==> c < n)
    &&& (a.val matches Value::Channel(c) ==> c < n)
}

/// The model after adjustment `a`. Its value is read from the model as it
/// stands before the adjustment.
pub open spec fn apply_view(a: Adjust, s: VolumeView) -> VolumeView {
    let val = resolve(a.val, s);
    match a.chan {
        Channel::Master => set_master_view(s, step(a.op, s.master, val)),
        Channel::N(c) => set_channel_view(s, c as int, step(a.op, s.channels[c as int], val)),
        Channel::All => {
            let channels = Seq::new(
                s.channels.len(),
                |i: int| clamped(step(a.op, s.channels[i], val)),
            );
            VolumeView {
                master: if channels.len() == 0 {
                    s.master
                } else {
                    max_level(channels)
                },
                channels,
                init_master: s.init_master,
                init_channels: s.init_channels,
            }
        },
    }
}

/// What a device write changes.
#[derive(Clone, Copy, Debug, PartialEq, Eq, Structural)]
pub enum Target {
    Master,
    Channel(u32),
}

/// One level to write to the device.
#[derive(Clone, Copy, Debug, PartialEq, Eq, Structural)]
pub struct Write {
    pub target: Target,
    pub level: u32,
}

/// Why a commit was refused.
#[derive(Clone, Copy, Debug, PartialEq, Eq, Structural)]
pub enum CommitError {
    /// The levels would fall near silence while a screen reader runs.
    ScreenReader,
}

impl CommitError {
    /// A human-readable description; it tells the caller to pass `--force`.
    pub fn message(&self) -> (r: &'static str)
        ensures
            r@
                == "a screen reader is detected; refusing to set the volume below 5%\nhint: use --force to override this behaviour"@,
    {
        match self {
            CommitError::ScreenReader => "a screen reader is detected; refusing to set the volume below 5%\nhint: use --force to override this behaviour",
        }
    }
}

/// The master differs from its initial level.
pub open spec fn master_changed(s: VolumeView) -> bool {
    s.master != s.init_master
}

/// The writes for the first `k` channels: each channel that changed, or
/// every one when the master changed.
pub open spec fn channel_writes(s: VolumeView, k: nat) -> Seq<Write>
    decreases k,
{
    if k == 0 {
        seq![]
    } else {
        let i = k - 1;
        channel_writes(s, i as nat) + if master_changed(s) || s.channels[i] != s.init_channels[i] {
            seq![Write { target: Target::Channel(i as u32), level: s.channels[i] }]
        } else {
            seq![]
        }
    }
}

/// Every write that brings the device from the initial levels to the current
/// ones, master first.
pub open spec fn planned_writes(s: VolumeView) -> Seq<Write> {
    let head = if master_changed(s) {
        seq![Write { target: Target::Master, level: s.master }]
    } else {
        seq![]
    };
    head + channel_writes(s, s.channels.len())
}

/// Without `force`, the levels would fall below the guard level and below
/// where they started, so that a screen reader must not be running.
pub open spec fn guard_applies(s: VolumeView, force: bool) -> bool {
    &&& !force
    &&& s.master < s.init_master
    &&& s.master < GUARD_LEVEL
    &&& loudest_or_full(s.channels) < loudest_or_full(s.init_channels)
    &&& loudest_or_full(s.channels) < GUARD_LEVEL
}

/// The outcome of a commit, given whether a screen reader runs.
pub open spec fn commit_spec(s: VolumeView, force: bool, screen_reader_active: bool) -> Result<
    Seq<Write>,
    CommitError,
> {
    if guard_applies(s, force) && screen_reader_active {
        Err(CommitError::ScreenReader)
    } else {
        Ok(planned_writes(s))
    }
}

/// Muting the master and then raising it to `v` leaves every channel at `v`:
/// the balance from before the mute is not restored.
pub proof fn lemma_unmute_is_uniform(s: VolumeView, v: u32)
    requires
        0 < v <= FULL,
    ensures
        set_master_view(set_master_view(s, 0), v).master == v,
        set_master_view(set_master_view(s, 0), v).channels == Seq::new(
            s.channels.len(),
            |i: int| v,
        ),
{
    let muted = set_master_view(s, 0);
    assert(muted.master == 0);
    assert(set_master_view(muted, v).channels =~= Seq::new(s.channels.len(), |i: int| v));
}

/// No channel write is planned for channels that kept their initial level
/// under an unchanged master.
proof fn lemma_no_channel_writes(s: VolumeView, k: nat)
    requires
        k <= s.channels.len(),
        s.channels.len() == s.init_channels.len(),
        !master_changed(s),
        forall|i: int| 0 <= i < k ==> #[trigger] s.channels[i] == s.init_channels[i],
    ensures
        channel_writes(s, k) == Seq::<Write>::empty(),
    decreases k,
{
    if k > 0 {
        lemma_no_channel_writes(s, (k - 1) as nat);
        assert(s.channels[k - 1] == s.init_channels[k - 1]);
        assert(channel_writes(s, k) =~= Seq::<Write>::empty());
    }
}

/// A commit of a model whose levels are still the initial ones writes
/// nothing.
pub proof fn lemma_unmodified_commit_writes_nothing(
    s: VolumeView,
    force: bool,
    screen_reader_active: bool,
)
    requires
        levels_ok(s),
        s.master == s.init_master,
        s.channels == s.init_channels,
    ensures
        commit_spec(s, force, screen_reader_active) == Ok::<Seq<Write>, CommitError>(
            Seq::<Write>::empty(),
        ),
{
    lemma_no_channel_writes(s, s.channels.len());
    assert(planned_writes(s) =~= Seq::<Write>::empty());
}

/// With `force` a commit is never refused: it plans every write, whether or
/// not a screen reader runs.
pub proof fn lemma_forced_commit_proceeds(s: VolumeView, screen_reader_active: bool)
    ensures
        commit_spec(s, true, screen_reader_active) == Ok::<Seq<Write>, CommitError>(
            planned_writes(s),
        ),
{
}

/// Without `force`, a commit whose levels fall under the guard level and
/// under where they started is refused while a screen reader runs.
pub proof fn lemma_guard_refuses(s: VolumeView)
    requires
        s.master < s.init_master,
        s.master < GUARD_LEVEL,
        loudest_or_full(s.channels) < loudest_or_full(s.init_channels),
        loudest_or_full(s.channels) < GUARD_LEVEL,
    ensures
        commit_spec(s, false, true) == Err::<Seq<Write>, CommitError>(CommitError::ScreenReader),
{
}

/// Master and channel levels of one device, with the levels it had at first.
pub struct Volume {
    master: u32,
    channels: Vec<u32>,
    init_master: u32,
    init_channels: Vec<u32>,
}

impl View for Volume {
    type V = VolumeView;

    closed spec fn view(&self) -> VolumeView {
        VolumeView {
            master: self.master,
            channels: self.channels@,
            init_master: self.init_master,
            init_channels: self.init_channels@,
        }
    }
}

/// The loudest level in `v`, or `0` when it is empty.
fn loudest(v: &Vec<u32>) -> (r: u32)
    ensures
        r == max_level(v@),
{
    let mut m: u32 = 0;
    let mut i: usize = 0;
    while i < v.len()
        invariant
            i <= v@.len(),
            m == max_level(v@.subrange(0, i as int)),
        decreases v@.len() - i,
    {
        proof {
            let next = v@.subrange(0, i + 1);
            assert(next.drop_last() =~= v@.subrange(0, i as int));
        }
        if v[i] > m {
            m = v[i];
        }
        i = i + 1;
    }
    assert(v@.subrange(0, i as int) =~= v@);
    m
}

/// The loudest level in `v`, or full scale when it is empty.
fn loudest_or_full_exec(v: &Vec<u32>) -> (r: u32)
    ensures
        r == loudest_or_full(v@),
{
    if v.len() == 0 {
        FULL
    } else {
        loudest(v)
    }
}

/// The loudest level of a sequence is at most any bound on all its levels.
proof fn lemma_max_level_bounded(s: Seq<u32>, b: u32)
    requires
        forall|i: int| 0 <= i < s.len() ==> #[trigger] s[i] <= b,
    ensures
        max_level(s) <= b,
    decreases s.len(),
{
    if s.len() > 0 {
        let t = s.drop_last();
        assert forall|i: int| 0 <= i < t.len() implies #[trigger] t[i] <= b by {
            assert(t[i] == s[i]);
        }
        lemma_max_level_bounded(t, b);
    }
}

impl Volume {
    /// Levels are in range and the channel counts agree.
    pub open spec fn wf(&self) -> bool {
        levels_ok(self@)
    }

    /// A model of a device whose master and channel levels read `master` and
    /// `channels`; these are also its initial levels.
    pub fn new(master: u32, channels: Vec<u32>) -> (r: Volume)
        requires
            master <= FULL,
            channels.len() <= u32::MAX,
            forall|i: int| 0 <= i < channels.len() ==> #[trigger] channels@[i] <= FULL,
        ensures
            r.wf(),
            r@.master == master,
            r@.channels == channels@,
            r@.init_master == master,
            r@.init_channels == channels@,
    {
        let mut init_channels: Vec<u32> = Vec::new();
        let mut i: usize = 0;
        while i < channels.len()
            invariant
                i <= channels@.len(),
                init_channels@ == channels@.subrange(0, i as int),
            decreases channels@.len() - i,
        {
            init_channels.push(channels[i]);
            i = i + 1;
            assert(init_channels@ =~= channels@.subrange(0, i as int));
        }
        assert(init_channels@ =~= channels@);
        Volume { master, channels, init_master: master, init_channels }
    }

    /// Sets channel `c` to `val`, brought within full scale; the master
    /// becomes the loudest channel.
    pub fn set_channel(&mut self, c: u32, val: u32)
        requires
            old(self).wf(),
            c < old(self)@.channels.len(),
        ensures
            final(self).wf(),
            final(self)@ == set_channel_view(old(self)@, c as int, val),
    {
        let v = if val > FULL {
            FULL
        } else {
            val
        };
        self.channels.set(c as usize, v);
        let m = loudest(&self.channels);
        self.master = m;
        proof {
            lemma_max_level_bounded(self.channels@, FULL);
        }
    }

    /// Sets the master to `val`, brought within full scale, and the channels
    /// by the rule of `set_master_view`.
    pub fn set_master(&mut self, val: u32)
        requires
            old(self).wf(),
        ensures
            final(self).wf(),
            final(self)@ == set_master_view(old(self)@, val),
    {
        let v = if val > FULL {
            FULL
        } else {
            val
        };
        let ghost s = self@;
        let n = self.channels.len();
        let old_master = self.master;
        let mut i: usize = 0;
        while i < n
            invariant
                s == old(self)@,
                levels_ok(s),
                n == s.channels.len(),
                i <= n,
                v == clamped(val),
                old_master == s.master,
                self.master == s.master,
                self.init_master == s.init_master,
                self.init_channels@ == s.init_channels,
                self.channels@.len() == n,
                forall|j: int| i <= j < n ==> #[trigger] self.channels@[j] == s.channels[j],
                forall|j: int|
                    0 <= j < i ==> #[trigger] self.channels@[j] == set_master_view(s, val).channels[j],
            decreases n - i,
        {
            let old_c = self.channels[i];
            let new_c = if v == 0 {
                0
            } else if old_master == 0 {
                v
            } else {
                proof {
                    assert((old_c as int) * (v as int) <= 1_000_000 * 1_000_000) by (nonlinear_arith)
                        requires
                            old_c <= 1_000_000u32,
                            v <= 1_000_000u32,
                    ;
                }
                let x = (old_c as u64) * (v as u64) / (old_master as u64);
                if x > FULL as u64 {
                    FULL
                } else {
                    x as u32
                }
            };
            self.channels.set(i, new_c);
            i = i + 1;
        }
        self.master = v;
        assert(self@.channels =~= set_master_view(s, val).channels);
    }

    /// The number of channels.
    pub fn chan_count(&self) -> (r: u32)
        requires
            self.wf(),
        ensures
            r == self@.channels.len(),
    {
        self.channels.len() as u32
    }

    /// The master level.
    pub fn master(&self) -> (r: u32)
        ensures
            r == self@.master,
    {
        self.master
    }

    /// The level of channel `c`.
    pub fn channel(&self, c: u32) -> (r: u32)
        requires
            c < self@.channels.len(),
        ensures
            r == self@.channels[c as int],
    {
        self.channels[c as usize]
    }

    /// All channel levels.
    pub fn channels(&self) -> (r: &[u32])
        ensures
            r@ == self@.channels,
    {
        self.channels.as_slice()
    }

    /// Whether a commit with this `force` asks if a screen reader runs: the
    /// levels would fall near silence and `force` is off.
    pub fn needs_screen_reader_check(&self, force: bool) -> (r: bool)
        ensures
            r == guard_applies(self@, force),
    {
        if force || self.master >= self.init_master || self.master >= GUARD_LEVEL {
            return false;
        }
        let old_max = loudest_or_full_exec(&self.init_channels);
        let new_max = loudest_or_full_exec(&self.channels);
        new_max < old_max && new_max < GUARD_LEVEL
    }

    /// The writes that bring the device up to date, or the refusal when the
    /// levels would fall near silence while a screen reader runs and `force`
    /// is off. The master is written when it changed; each channel when it
    /// changed, or when the master did.
    pub fn commit(&self, force: bool, screen_reader_active: bool) -> (r: Result<
        Vec<Write>,
        CommitError,
    >)
        requires
            self.wf(),
        ensures
            match r {
                Ok(w) => commit_spec(self@, force, screen_reader_active) == Ok::<
                    Seq<Write>,
                    CommitError,
                >(w@),
                Err(e) => commit_spec(self@, force, screen_reader_active) == Err::<
                    Seq<Write>,
                    CommitError,
                >(e),
            },
    {
        if screen_reader_active && self.needs_screen_reader_check(force) {
            return Err(CommitError::ScreenReader);
        }
        let changed = self.master != self.init_master;
        let mut out: Vec<Write> = Vec::new();
        if changed {
            out.push(Write { target: Target::Master, level: self.master });
        }
        let ghost head = out@;
        let n = self.channels.len();
        let mut i: usize = 0;
        while i < n
            invariant
                n == self@.channels.len(),
                levels_ok(self@),
                i <= n,
                changed == master_changed(self@),
                out@ == head + channel_writes(self@, i as nat),
            decreases n - i,
        {
            let new = self.channels[i];
            if changed || self.init_channels[i] != new {
                out.push(Write { target: Target::Channel(i as u32), level: new });
            }
            i = i + 1;
            proof {
                let k = i as nat;
                assert(channel_writes(self@, k) == channel_writes(self@, (k - 1) as nat) + if master_changed(
                    self@,
                ) || self@.channels[k - 1] != self@.init_channels[k - 1] {
                    seq![Write { target: Target::Channel((k - 1) as u32), level: self@.channels[k - 1] }]
                } else {
                    seq![]
                });
            }
            assert(out@ =~= head + channel_writes(self@, i as nat));
        }
        Ok(out)
    }
}

impl Adjust {
    /// Applies this adjustment to `vol`. Its value is read from `vol` as it
    /// stands before the adjustment.
    pub fn apply(self, vol: &mut Volume)
        requires
            old(vol).wf(),
            refs_in_range(self, old(vol)@.channels.len()),
        ensures
            final(vol).wf(),
            final(vol)@ == apply_view(self, old(vol)@),
    {
        let val: u32 = match self.val {
            Value::N(p) => p as u32 * PER_PERCENT,
            Value::MasterChannel => vol.master(),
            Value::Channel(c) => vol.channel(c),
        };
        match self.chan {
            Channel::Master => {
                let old = vol.master();
                vol.set_master(step_exec(self.op, old, val));
            },
            Channel::N(c) => {
                let old = vol.channel(c);
                vol.set_channel(c, step_exec(self.op, old, val));
            },
            Channel::All => {
                let ghost s = vol@;
                let n = vol.chan_count();
                let ghost target = apply_view(self, s);
                let mut c: u32 = 0;
                while c < n
                    invariant
                        vol.wf(),
                        n == s.channels.len(),
                        c <= n,
                        val == resolve(self.val, s),
                        self.chan == Channel::All,
                        target == apply_view(self, s),
                        target.channels.len() == n,
                        forall|j: int| 0 <= j < n ==> #[trigger] target.channels[j] == clamped(step(self.op, s.channels[j], val)),
                        vol@.init_master == s.init_master,
                        vol@.init_channels == s.init_channels,
                        vol@.channels.len() == n,
                        forall|j: int| c <= j < n ==> #[trigger] vol@.channels[j] == s.channels[j],
                        forall|j: int| 0 <= j < c ==> #[trigger] vol@.channels[j] == target.channels[j],
                        c == 0 ==> vol@.master == s.master,
                        c > 0 ==> vol@.master == max_level(vol@.channels),
                    decreases n - c,
                {
                    let old = vol.channel(c);
                    vol.set_channel(c, step_exec(self.op, old, val));
                    assert(vol@.channels[c as int] == target.channels[c as int]);
                    c = c + 1;
                }
                assert(vol@.channels =~= target.channels);
            },
        }
    }
}

/// The new level from `old` by `op` with value `val`.
fn step_exec(op: Op, old: u32, val: u32) -> (r: u32)
    requires
        old <= FULL,
    ensures
        r == step(op, old, val),
{
    match op {
        Op::Assign => val,
        Op::Inc => if val > FULL - old {
            FULL
        } else {
            old + val
        },
        Op::Dec => if old >= val {
            old - val
        } else {
            0
        },
    }
}

} // verus!
