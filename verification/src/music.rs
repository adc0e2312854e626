//! The music's vocabulary: the tracks of an arrangement, and the moods the
//! game asks for. How loud each track sits in each mood is a matter of
//! floating-point gains and lives with the player.

use vstd::prelude::*;

verus! {

/// One layer of an arrangement.
#[derive(Debug, Clone, Copy, PartialEq, Eq, Structural)]
pub enum Track {
    /// Root movement. The only track audible on its own.
    Bass,
    /// Sustained thirds and fifths. The bed everything else sits on.
    Pad,
    /// Sixteenths over the pentatonic. Free spins and nothing else.
    Arp,
    /// The pulse. Only when the dragon is awake.
    Drum,
}

pub open spec fn track_label(t: Track) -> Seq<char> {
    match t {
        Track::Bass => "Bass"@,
        Track::Pad => "Pad"@,
        Track::Arp => "Arp"@,
        Track::Drum => "Drum"@,
    }
}

impl Track {
    /// Every track, bottom of the mix first.
    pub fn all() -> (tracks: Vec<Track>)
        ensures
            tracks@ == seq![Track::Bass, Track::Pad, Track::Arp, Track::Drum],
    {
        let tracks = vec![Track::Bass, Track::Pad, Track::Arp, Track::Drum];
        assert(tracks@ =~= seq![Track::Bass, Track::Pad, Track::Arp, Track::Drum]);
        tracks
    }

    pub fn label(self) -> (label: &'static str)
        ensures
            label@ == track_label(self),
    {
        match self {
            Track::Bass => "Bass",
            Track::Pad => "Pad",
            Track::Arp => "Arp",
            Track::Drum => "Drum",
        }
    }
}

/// What the game is doing, in the only terms the music cares about.
#[derive(Debug, Clone, Copy, PartialEq, Eq, Structural)]
pub enum Mood {
    Base,
    /// Free spins, of any kind.
    Feature,
    /// The Dragon's Wrath respin round or a Vault Pick board: both hold the
    /// reels and both want the room to feel different.
    Held,
}

impl Mood {
    /// Every mood.
    pub fn all() -> (moods: Vec<Mood>)
        ensures
            moods@ == seq![Mood::Base, Mood::Feature, Mood::Held],
    {
        let moods = vec![Mood::Base, Mood::Feature, Mood::Held];
        assert(moods@ =~= seq![Mood::Base, Mood::Feature, Mood::Held]);
        moods
    }
}

impl Default for Mood {
    fn default() -> (mood: Self)
        ensures
            mood == Mood::Base,
    {
        Mood::Base
    }
}

} // verus!
