//! The notification daemon's rules: how an incoming notification is
//! numbered, how long it stays, how urgent it looks, and when a card's
//! timer may still close it.

use std::collections::HashMap;

use vstd::prelude::*;

verus! {

broadcast use vstd::std_specs::hash::group_hash_axioms;

/// How long a notification stays when the sender leaves it to the server.
pub const DEFAULT_TIMEOUT_MS: u64 = 5_000;

/// How a notification card is styled.
#[derive(Debug, Clone, Copy, PartialEq, Eq, Structural)]
pub enum Urgency {
    Normal,
    Critical,
}

impl Urgency {
    /// The urgency for the `urgency` hint's byte value, where the sender
    /// gave one; level 2 and above is critical, no hint counts as normal.
    pub fn from_level(level: Option<u8>) -> (r: Urgency)
        ensures
            r == (match level {
                Some(l) => if l >= 2 {
                    Urgency::Critical
                } else {
                    Urgency::Normal
                },
                None => Urgency::Normal,
            }),
    {
        let l = match level {
            Some(l) => l,
            None => 1,
        };
        if l >= 2 {
            Urgency::Critical
        } else {
            Urgency::Normal
        }
    }

    /// The style class of the card.
    pub fn css_class(self) -> (r: &'static str)
        ensures
            r@ == match self {
                Urgency::Normal => "normal"@,
                Urgency::Critical => "critical"@,
            },
    {
        match self {
            Urgency::Normal => "normal",
            Urgency::Critical => "critical",
        }
    }
}

/// How long a notification stays: the sender's positive timeout, forever
/// for 0, the default for a negative one.
pub fn notification_timeout(expire_timeout: i32) -> (r: Option<u64>)
    ensures
        r == (if expire_timeout > 0 {
            Some(expire_timeout as u64)
        } else if expire_timeout == 0 {
            None
        } else {
            Some(DEFAULT_TIMEOUT_MS)
        }),
{
    if expire_timeout > 0 {
        Some(expire_timeout as u64)
    } else if expire_timeout == 0 {
        None
    } else {
        Some(DEFAULT_TIMEOUT_MS)
    }
}

/// Hands out notification ids, from 1 on, wrapping at the end of `u32`.
pub struct NotificationIds {
    next: u32,
}

impl View for NotificationIds {
    type V = u32;

    closed spec fn view(&self) -> u32 {
        self.next
    }
}

impl NotificationIds {
    pub fn new() -> (r: Self)
        ensures
            r@ == 1,
    {
        NotificationIds { next: 1 }
    }

    /// The id of an incoming notification: the one it replaces, or a new
    /// one when it replaces none (`replaces_id` is 0).
    pub fn assign(&mut self, replaces_id: u32) -> (r: u32)
        ensures
            replaces_id == 0 ==> r == old(self)@ && final(self)@ == (if old(self)@ == u32::MAX {
                0
            } else {
                old(self)@ + 1
            }),
            replaces_id != 0 ==> r == replaces_id && final(self)@ == old(self)@,
    {
        if replaces_id == 0 {
            let id = self.next;
            self.next = if id == u32::MAX {
                0
            } else {
                id + 1
            };
            id
        } else {
            replaces_id
        }
    }
}

/// What the server can render.
pub fn capabilities() -> (r: Vec<String>)
    ensures
        r@.len() == 3,
        r@[0]@ == "body"@,
        r@[1]@ == "body-markup"@,
        r@[2]@ == "icon-static"@,
{
    let mut r: Vec<String> = Vec::new();
    r.push("body".to_owned());
    r.push("body-markup".to_owned());
    r.push("icon-static".to_owned());
    r
}

/// Name, vendor, version and spec version of the server, for the server
/// `version` given.
pub fn server_information(version: &str) -> (r: (String, String, String, String))
    ensures
        r.0@ == "vibeshell-notifd"@,
        r.1@ == "vibeshell"@,
        r.2@ == version@,
        r.3@ == "1.2"@,
{
    ("vibeshell-notifd".to_owned(), "vibeshell".to_owned(), version.to_owned(), "1.2".to_owned())
}

/// The generation of each shown card, so that the timer of a card that was
/// closed (or replaced and closed) does not close what shows now.
pub struct CardGenerations {
    generations: HashMap<u32, u64>,
}

impl View for CardGenerations {
    type V = Map<u32, u64>;

    closed spec fn view(&self) -> Map<u32, u64> {
        self.generations@
    }
}

impl CardGenerations {
    pub fn new() -> (r: Self)
        ensures
            r@ == Map::<u32, u64>::empty(),
    {
        CardGenerations { generations: HashMap::new() }
    }

    /// Forgets card `id`.
    pub fn close(&mut self, id: u32)
        ensures
            final(self)@ == old(self)@.remove(id),
    {
        self.generations.remove(&id);
    }

    /// Shows card `id`, first closing the card it replaces; the result is
    /// its generation.
    pub fn add(&mut self, id: u32) -> (r: u64)
        ensures
            r == 1,
            final(self)@ == old(self)@.insert(id, 1),
    {
        self.close(id);
        let previous: u64 = match self.generations.get(&id) {
            Some(g) => *g,
            None => 0,
        };
        let generation = previous + 1;
        self.generations.insert(id, generation);
        generation
    }

    /// Whether the timer started for card `id` at `generation` may close it.
    pub fn is_current(&self, id: u32, generation: u64) -> (r: bool)
        ensures
            r == (self@.contains_key(id) && self@[id] == generation),
    {
        match self.generations.get(&id) {
            Some(g) => *g == generation,
            None => false,
        }
    }
}

/// Over the generations map that `add`, `close` and `is_current` keep: right
/// after card `id` is shown, the timer of that showing finds it current;
/// once the card is closed, no timer does.
pub proof fn law_timer_closes_shown_card(before: Map<u32, u64>, id: u32)
    ensures
        before.insert(id, 1).contains_key(id) && before.insert(id, 1)[id] == 1,
        !before.insert(id, 1).remove(id).contains_key(id),
{
}

} // verus!
