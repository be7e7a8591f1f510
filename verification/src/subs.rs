//! The dialogue track and the query that finds the lines spoken at a
//! timecode.
//!
//! A timecode names a whole second. An event is a candidate for it when the
//! event is on screen at any moment of that second, not only at its first
//! instant: an event that starts half a second in is found. Events that
//! place a caption on the screen are never candidates.

use aspasia::substation::ass::AssEvent;
use aspasia::substation::SubStationEventKind;
use aspasia::{AssSubtitle, Moment, Subtitle};
use vstd::prelude::*;

use crate::qc_issue::{event_views, ASSEvent, ASSEventView, EventKind};
use crate::seqs::{lemma_filter_empty, lemma_filter_push};
use crate::text::{chars_of, contains_chars, occurs_in};
use crate::timecode::Timecode;

verus! {

#[verifier::external_type_specification]
#[verifier::external_body]
pub struct ExAssSubtitle(aspasia::AssSubtitle);

/// The dialogue events of a track, in the order in which the track holds
/// them.
pub uninterp spec fn track_events(track: AssSubtitle) -> Seq<ASSEventView>;

/// The line by which a SubStation script records an event.
pub uninterp spec fn event_line(event: ASSEventView) -> Seq<char>;

/// The markup that places a caption on the screen. An event whose text
/// holds it is a positioned caption, not spoken dialogue.
pub open spec fn position_tag() -> Seq<char> {
    seq!['\\', 'p', 'o', 's', '(']
}

/// Whether the text of an event places it on the screen.
pub open spec fn is_positioned(text: Seq<char>) -> bool {
    occurs_in(position_tag(), text)
}

/// Whether an event is on screen at some moment of the second that begins
/// `secs` seconds into the media: the event's interval, closed at its start
/// and open at its end, meets the interval of that second.
pub open spec fn overlaps_second(event: ASSEventView, secs: nat) -> bool {
    event.start < (secs + 1) * 1000 && event.end > secs * 1000
}

/// Whether an event may be attached to an issue at `secs` seconds.
pub open spec fn is_candidate(event: ASSEventView, secs: nat) -> bool {
    overlaps_second(event, secs) && !is_positioned(event.text)
}

/// The test that picks the candidates for `secs` seconds.
pub open spec fn candidate_test(secs: nat) -> spec_fn(ASSEventView) -> bool {
    |event: ASSEventView| is_candidate(event, secs)
}

/// The events among `events` that may be attached to an issue at `secs`
/// seconds, in the order of `events`.
pub open spec fn candidates(events: Seq<ASSEventView>, secs: nat) -> Seq<ASSEventView> {
    events.filter(candidate_test(secs))
}

/// The second at which one event ends and the next begins belongs to the
/// later one: an event that ends with the start of a second is not on
/// screen during it, and one that begins with it is.
pub proof fn lemma_boundary_belongs_to_later_event(event: ASSEventView, secs: nat)
    ensures
        event.end == secs * 1000 ==> !overlaps_second(event, secs),
        event.start == secs * 1000 && event.start < event.end ==> overlaps_second(event, secs),
{
}

/// A dialogue track.
pub struct Subs {
    pub subtitle_file: AssSubtitle,
}

/// `Subtitle::events` of `aspasia` on an `AssSubtitle`: the dialogue events
/// of the track, in the track's order. Each event is handed out field by
/// field, its two moments as milliseconds.
#[verifier::external_body]
fn dialogue_events(track: &AssSubtitle) -> (r: Vec<ASSEvent>)
    ensures
        event_views(r@) == track_events(*track),
{
    track.events().iter().map(|e| ASSEvent {
        kind: match e.kind {
            SubStationEventKind::Dialogue => EventKind::Dialogue,
            SubStationEventKind::Picture => EventKind::Picture,
            SubStationEventKind::Sound => EventKind::Sound,
            SubStationEventKind::Movie => EventKind::Movie,
            SubStationEventKind::Command => EventKind::Command,
        },
        layer: e.layer, start: e.start.into(), end: e.end.into(),
        style: e.style.clone(), name: e.name.clone(),
        margin_l: e.margin_l, margin_r: e.margin_r, margin_v: e.margin_v,
        effect: e.effect.clone(), text: e.text.clone(),
    }).collect()
}

/// `to_string` of `aspasia` on an `AssEvent` with the fields of `event`:
/// the event written as a line of a SubStation script. The line depends on
/// the fields alone.
#[verifier::external_body]
fn script_line(event: &ASSEvent) -> (r: String)
    ensures
        r@ == event_line(event@),
{
    AssEvent {
        kind: match event.kind {
            EventKind::Dialogue => SubStationEventKind::Dialogue,
            EventKind::Picture => SubStationEventKind::Picture,
            EventKind::Sound => SubStationEventKind::Sound,
            EventKind::Movie => SubStationEventKind::Movie,
            EventKind::Command => SubStationEventKind::Command,
        },
        layer: event.layer, start: Moment::from(event.start), end: Moment::from(event.end),
        style: event.style.clone(), name: event.name.clone(),
        margin_l: event.margin_l, margin_r: event.margin_r, margin_v: event.margin_v,
        effect: event.effect.clone(), text: event.text.clone(),
    }.to_string()
}

impl ASSEvent {
    /// The event as a line of a SubStation script.
    pub fn to_line(&self) -> (r: String)
        ensures
            r@ == event_line(self@),
    {
        script_line(self)
    }

    /// Whether the event may be attached to an issue at `timecode`.
    pub fn is_choice_for(&self, timecode: &Timecode) -> (r: bool)
        ensures
            r == is_candidate(self@, timecode@),
    {
        let secs = timecode.as_secs() as i128;
        if (self.start as i128) < (secs + 1) * 1000 && (self.end as i128) > secs * 1000 {
            let text = chars_of(self.text.as_str());
            let tag: Vec<char> = vec!['\\', 'p', 'o', 's', '('];
            assert(tag@ =~= position_tag());
            !contains_chars(&text, &tag)
        } else {
            false
        }
    }
}

impl Subs {
    /// The dialogue events of the track.
    pub open spec fn events(&self) -> Seq<ASSEventView> {
        track_events(self.subtitle_file)
    }

    /// Wraps a loaded track.
    pub fn new(subtitle_file: AssSubtitle) -> (r: Subs)
        ensures
            r.subtitle_file == subtitle_file,
    {
        Subs { subtitle_file }
    }

    /// The dialogue events of the track, in the order of the track.
    pub fn all_events(&self) -> (r: Vec<ASSEvent>)
        ensures
            event_views(r@) == self.events(),
    {
        dialogue_events(&self.subtitle_file)
    }

    /// The events of the track that may be attached to an issue at
    /// `timecode`: those on screen during that second, positioned captions
    /// left out, in the order of the track.
    pub fn choices_for_timecode(&self, timecode: &Timecode) -> (r: Vec<ASSEvent>)
        ensures
            event_views(r@) == candidates(self.events(), timecode@),
    {
        choices_among(self.all_events(), timecode)
    }
}

/// The events among `events` that may be attached to an issue at
/// `timecode`: those on screen during that second, positioned captions left
/// out, in the order of `events`.
pub fn choices_among(events: Vec<ASSEvent>, timecode: &Timecode) -> (r: Vec<ASSEvent>)
    ensures
        event_views(r@) == candidates(event_views(events@), timecode@),
{
    let ghost all = event_views(events@);
    let ghost test = candidate_test(timecode@);
    let mut chosen: Vec<ASSEvent> = Vec::new();
    proof {
        lemma_filter_empty(test);
        assert(all.take(0) =~= Seq::empty());
        assert(event_views(chosen@) =~= Seq::empty());
    }
    for event in it: events
        invariant
            test == candidate_test(timecode@),
            all == event_views(it.seq()),
            event_views(chosen@) == all.take(it.index()).filter(test),
    {
        let ghost before = chosen@;
        proof {
            lemma_filter_push(all.take(it.index()), test, event@);
            assert(all.take(it.index()).push(event@) =~= all.take(it.index() + 1));
        }
        if event.is_choice_for(timecode) {
            chosen.push(event);
            assert(event_views(chosen@) =~= event_views(before).push(event@));
        }
    }
    proof {
        assert(all.take(all.len() as int) =~= all);
    }
    chosen
}

} // verus!
