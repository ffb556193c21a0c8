use vstd::prelude::*;
use vstd::string::StringExecFns;

verus! {

/// A trivial random story generator: a flat list of event strings and a
/// story length. A story is that many events drawn at random, each on a
/// line of its own.
#[derive(Debug)]
pub struct CutoutDomain {
    pub events: Vec<String>,
    pub story_length: u32,
}

/// A generated story: the text of the drawn events, one per line.
#[derive(Debug, PartialEq, Eq)]
pub struct CutoutStory(pub String);

/// Relies on rand::random_range: sampling `0..n` returns a value within
/// the range, and panics on an empty range, which `n > 0` rules out. The
/// result depends on a thread-local generator, so nothing more than the
/// range can be promised.
#[verifier::external_body]
fn random_index(n: usize) -> (r: usize)
    requires
        n > 0,
    ensures
        r < n,
{
    rand::random_range(0..n)
}

/// The text of a story drawn with the given picks: each picked event in
/// order, a line break after each.
pub open spec fn story_text(events: Seq<Seq<char>>, picks: Seq<int>) -> Seq<char>
    decreases picks.len(),
{
    if picks.len() == 0 {
        Seq::empty()
    } else {
        story_text(events, picks.drop_last()) + events[picks.last()] + seq!['\n']
    }
}

/// Whether every pick indexes an event.
pub open spec fn picks_in_range(picks: Seq<int>, n: int) -> bool {
    forall|i: int| 0 <= i < picks.len() ==> 0 <= #[trigger] picks[i] < n
}

impl CutoutDomain {
    /// The event texts as character sequences.
    pub open spec fn event_views(self) -> Seq<Seq<char>> {
        self.events@.map_values(|e: String| e@)
    }

    /// An empty domain: no events, length zero.
    pub fn new() -> (r: Self)
        ensures
            r.events@.len() == 0,
            r.story_length == 0,
    {
        CutoutDomain { events: Vec::new(), story_length: 0 }
    }

    /// Draws a story: `story_length` events picked at random from the event
    /// list, each followed by a line break. Some sequence of in-range picks
    /// accounts for the text exactly; which one is up to chance. With no
    /// events to pick from, only the empty story of length zero can be
    /// asked for.
    pub fn generate_story(&self) -> (r: Option<CutoutStory>)
        requires
            self.events@.len() > 0 || self.story_length == 0,
        ensures
            match r {
                Some(story) => exists|picks: Seq<int>|
                    picks.len() == self.story_length as nat && picks_in_range(
                        picks,
                        self.events@.len() as int,
                    ) && (#[trigger] story_text(self.event_views(), picks)) == story.0@,
                None => false,
            },
    {
        let ghost eventviews = self.event_views();
        let mut story = String::new();
        let ghost mut picks: Seq<int> = Seq::empty();
        let mut i: u32 = 0;
        while i < self.story_length
            invariant
                self.events@.len() > 0 || self.story_length == 0,
                eventviews == self.event_views(),
                i <= self.story_length,
                picks.len() == i as nat,
                picks_in_range(picks, self.events@.len() as int),
                story@ == story_text(eventviews, picks),
            decreases self.story_length - i,
        {
            let idx = random_index(self.events.len());
            story.append(self.events[idx].as_str());
            story.append("\n");
            proof {
                reveal_strlit("\n");
                let extended = picks.push(idx as int);
                assert(extended.drop_last() =~= picks);
                assert("\n"@ =~= seq!['\n']);
                picks = extended;
            }
            i = i + 1;
        }
        Some(CutoutStory(story))
    }
}

impl Default for CutoutDomain {
    /// The same empty domain that `new` builds.
    fn default() -> (r: Self)
        ensures
            r.events@.len() == 0,
            r.story_length == 0,
    {
        CutoutDomain::new()
    }
}

} // verus!
