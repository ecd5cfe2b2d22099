//! The stream scheduler: ordered, cancellable emission of a finite
//! fragment sequence, with caller-controlled pacing.
//!
//! The scheduler decides; the caller performs. Each call of `poll`
//! hands back the one next step — emit this fragment, then wait so
//! long, or close the stream — and the caller reports before each call
//! whether the client is still connected. Time itself, and the channel,
//! live with the caller.

use vstd::prelude::*;

use crate::fragment::Fragment;
use crate::fragment::div_markup;
use crate::fragment::render_literal;

verus! {

/// The one next step of a stream: emit a fragment and then wait the
/// given number of milliseconds, or close the stream.
pub enum StreamStep {
    Emit { fragment: Fragment, wait_ms: u64 },
    Close,
}

/// Owns the ordered emission of a finite fragment sequence over one
/// connection. Created fresh per request; never shared.
pub struct StreamScheduler {
    pub fragments: Vec<Fragment>,
    pub delay_ms: u64,
    pub next: usize,
    pub closed: bool,
    pub emitted: Ghost<Seq<Fragment>>,
}

impl StreamScheduler {
    /// What always holds of a scheduler: what has been handed out for
    /// emission is exactly the planned prefix before `next`, in order.
    pub open spec fn wf(self) -> bool {
        &&& self.next <= self.fragments@.len()
        &&& self.emitted@ == self.fragments@.take(self.next as int)
    }

    pub fn new(fragments: Vec<Fragment>, delay_ms: u64) -> (s: Self)
        ensures
            s.wf(),
            s.fragments@ == fragments@,
            s.delay_ms == delay_ms,
            !s.closed,
            s.emitted@ == Seq::<Fragment>::empty(),
    {
        let s = StreamScheduler {
            fragments,
            delay_ms,
            next: 0,
            closed: false,
            emitted: Ghost(Seq::empty()),
        };
        proof {
            assert(s.fragments@.take(0) =~= Seq::<Fragment>::empty());
        }
        s
    }

    /// Decides the one next step. While the client is connected the
    /// planned fragments are handed out one by one, in order, each
    /// followed by the configured wait; after the last one, or the
    /// moment the caller reports a disconnect, the stream closes and
    /// nothing further is ever emitted.
    pub fn poll(&mut self, connected: bool) -> (step: StreamStep)
        requires
            old(self).wf(),
        ensures
            final(self).wf(),
            final(self).fragments@ == old(self).fragments@,
            final(self).delay_ms == old(self).delay_ms,
            !connected || old(self).closed ==> step is Close && final(self).closed
                && final(self).emitted@ == old(self).emitted@,
            connected && !old(self).closed && old(self).next < old(self).fragments@.len()
                ==> step == (StreamStep::Emit {
                    fragment: old(self).fragments@[old(self).next as int],
                    wait_ms: old(self).delay_ms,
                })
                && final(self).emitted@
                    == old(self).emitted@.push(old(self).fragments@[old(self).next as int])
                && final(self).next == old(self).next + 1 && !final(self).closed,
            connected && !old(self).closed && old(self).next == old(self).fragments@.len()
                ==> step is Close && final(self).closed
                && final(self).emitted@ == old(self).emitted@,
    {
        if !connected || self.closed {
            self.closed = true;
            return StreamStep::Close;
        }
        if self.next < self.fragments.len() {
            let f = &self.fragments[self.next];
            let fragment = Fragment { mount_id: f.mount_id.clone(), markup: f.markup.clone() };
            proof {
                assert(fragment == self.fragments@[self.next as int]);
            }
            let i = self.next;
            self.next = i + 1;
            proof {
                self.emitted@ = self.emitted@.push(self.fragments@[i as int]);
                assert(self.fragments@.take(i + 1) =~= self.fragments@.take(i as int).push(
                    self.fragments@[i as int],
                ));
            }
            StreamStep::Emit { fragment, wait_ms: self.delay_ms }
        } else {
            self.closed = true;
            StreamStep::Close
        }
    }
}

/// What a whole run of a scheduler emits, given the fragment plan and,
/// for each step, whether the client was still connected: fragments are
/// taken from the front, in order, until the plan or the connection
/// ends.
pub open spec fn stream_run(fragments: Seq<Fragment>, alive: Seq<bool>) -> Seq<Fragment>
    decreases fragments.len(),
{
    if fragments.len() == 0 || alive.len() == 0 || !alive[0] {
        Seq::<Fragment>::empty()
    } else {
        seq![fragments[0]] + stream_run(fragments.skip(1), alive.skip(1))
    }
}

/// A client that stays connected throughout receives every planned
/// fragment, in plan order, nothing more and nothing less.
pub proof fn lemma_stream_run_complete(fragments: Seq<Fragment>, alive: Seq<bool>)
    requires
        alive.len() >= fragments.len(),
        forall|i: int| 0 <= i < alive.len() ==> alive[i],
    ensures
        stream_run(fragments, alive) == fragments,
    decreases fragments.len(),
{
    if fragments.len() == 0 {
        assert(stream_run(fragments, alive) =~= fragments);
    } else {
        lemma_stream_run_complete(fragments.skip(1), alive.skip(1));
        assert(stream_run(fragments, alive) =~= fragments);
    }
}

/// A client that disconnects after `k` delivered fragments receives
/// exactly the first `k` of the plan and not one more.
pub proof fn lemma_stream_run_disconnect(fragments: Seq<Fragment>, alive: Seq<bool>, k: int)
    requires
        0 <= k <= fragments.len(),
        k < alive.len(),
        forall|i: int| 0 <= i < k ==> alive[i],
        !alive[k],
    ensures
        stream_run(fragments, alive) == fragments.take(k),
    decreases k,
{
    if k == 0 {
        assert(stream_run(fragments, alive) =~= fragments.take(0));
    } else {
        lemma_stream_run_disconnect(fragments.skip(1), alive.skip(1), k - 1);
        assert(fragments.skip(1).take(k - 1) =~= fragments.take(k).skip(1));
        assert(stream_run(fragments, alive) =~= fragments.take(k));
    }
}

/// The content shown after the demo stream's step `i`: the first
/// `i + 1` characters of the message.
pub open spec fn demo_content(message: Seq<char>, i: int) -> Seq<char> {
    message.take(i + 1)
}

/// Each demo step extends the shown content by exactly one character:
/// step `i + 1` shows step `i`'s content with one character appended.
pub proof fn lemma_demo_content_extends(message: Seq<char>, i: int)
    requires
        0 <= i,
        i + 1 < message.len(),
    ensures
        demo_content(message, i + 1) == demo_content(message, i).push(message[i + 1]),
{
    assert(demo_content(message, i + 1) =~= demo_content(message, i).push(message[i + 1]));
}

/// The fixed message of the demo stream.
pub fn demo_message() -> (s: &'static str)
    ensures
        s@ == "Hello, world!"@,
{
    "Hello, world!"
}

/// The mount point the demo stream's fragments merge into.
pub fn demo_mount_id() -> (s: &'static str)
    ensures
        s@ == "message"@,
{
    "message"
}

/// A freshly opened demo stream: one fragment per character of the
/// fixed message, paced by the decoded delay, nothing emitted yet.
pub fn demo_stream(signals: &crate::signals::Signals) -> (s: StreamScheduler)
    ensures
        s.wf(),
        !s.closed,
        s.emitted@ == Seq::<Fragment>::empty(),
        s.delay_ms == signals.delay,
        s.fragments@.len() == "Hello, world!"@.len(),
        forall|i: int|
            0 <= i < s.fragments@.len() ==> (#[trigger] s.fragments@[i].mount_id)@ == "message"@
                && s.fragments@[i].markup@ == div_markup(
                "message"@,
                demo_content("Hello, world!"@, i),
            ),
{
    let fragments = demo_fragments(demo_message(), demo_mount_id());
    StreamScheduler::new(fragments, signals.delay)
}

/// The markup of the headline fragment announcing the computed total.
pub open spec fn headline_markup(total: Seq<char>) -> Seq<char> {
    "<div id='intrinsic_value' class='value-display'>Intrinsic Value: $"@ + total + "</div>"@
}

/// A freshly opened valuation stream: exactly two fragments, the
/// headline first and the full table second, with no pacing delay.
pub fn valuation_stream(context: &crate::calculator::DcfTableContext) -> (s: StreamScheduler)
    ensures
        s.wf(),
        !s.closed,
        s.emitted@ == Seq::<Fragment>::empty(),
        s.delay_ms == 0,
        s.fragments@.len() == 2,
        s.fragments@[0].mount_id@ == "intrinsic_value"@,
        s.fragments@[0].markup@ == headline_markup(context.total_intrinsic_value@),
        s.fragments@[1].mount_id@ == "dcf_table"@,
        s.fragments@[1].markup@ == crate::calculator::table_markup(
            context.rows@,
            context.total_intrinsic_value@,
        ),
{
    let mut headline = String::from_str(
        "<div id='intrinsic_value' class='value-display'>Intrinsic Value: $",
    );
    headline.append(context.total_intrinsic_value.as_str());
    headline.append("</div>");
    proof {
        assert(headline@ =~= headline_markup(context.total_intrinsic_value@));
    }
    let table = crate::calculator::result_table(context);
    let mut fragments: Vec<Fragment> = Vec::new();
    fragments.push(Fragment { mount_id: String::from_str("intrinsic_value"), markup: headline });
    fragments.push(Fragment { mount_id: String::from_str("dcf_table"), markup: table });
    StreamScheduler::new(fragments, 0)
}

/// Builds the demo plan for `message`: one fragment per character, the
/// `i`-th carrying the first `i + 1` characters, all on one mount point.
pub fn demo_fragments(message: &str, mount_id: &str) -> (v: Vec<Fragment>)
    ensures
        v@.len() == message@.len(),
        forall|i: int|
            0 <= i < v@.len() ==> (#[trigger] v@[i].mount_id)@ == mount_id@ && v@[i].markup@
                == div_markup(mount_id@, demo_content(message@, i)),
{
    let n = message.unicode_len();
    let mut v: Vec<Fragment> = Vec::new();
    let mut i: usize = 0;
    while i < n
        invariant
            0 <= i <= n,
            n == message@.len(),
            v@.len() == i,
            forall|k: int|
                0 <= k < i ==> (#[trigger] v@[k].mount_id)@ == mount_id@ && v@[k].markup@
                    == div_markup(mount_id@, demo_content(message@, k)),
        decreases n - i,
    {
        let prefix = message.substring_char(0, i + 1);
        proof {
            assert(prefix@ =~= demo_content(message@, i as int));
        }
        let f = render_literal(mount_id, prefix);
        v.push(f);
        i = i + 1;
    }
    v
}

} // verus!
