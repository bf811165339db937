//! What the MQTT providers compute around their messages: broker addresses,
//! which topic a message came from, and when a full set of positions has
//! arrived.
use vstd::prelude::*;

use crate::text::{string_concat, string_eq, string_from_str, string_push};
use crate::variables::VarName;

verus! {

/// The decimal digits of `n`, without leading zeroes ("0" for zero).
pub open spec fn decimal(n: nat) -> Seq<char>
    decreases n,
{
    if n < 10 {
        seq![digit_char(n)]
    } else {
        decimal(n / 10) + seq![digit_char(n % 10)]
    }
}

/// The character of a digit.
pub open spec fn digit_char(d: nat) -> char {
    if d == 0 {
        '0'
    } else if d == 1 {
        '1'
    } else if d == 2 {
        '2'
    } else if d == 3 {
        '3'
    } else if d == 4 {
        '4'
    } else if d == 5 {
        '5'
    } else if d == 6 {
        '6'
    } else if d == 7 {
        '7'
    } else if d == 8 {
        '8'
    } else {
        '9'
    }
}

/// The character of digit `d`.
fn digit(d: u16) -> (c: char)
    requires
        d < 10,
    ensures
        c == digit_char(d as nat),
{
    if d == 0 {
        '0'
    } else if d == 1 {
        '1'
    } else if d == 2 {
        '2'
    } else if d == 3 {
        '3'
    } else if d == 4 {
        '4'
    } else if d == 5 {
        '5'
    } else if d == 6 {
        '6'
    } else if d == 7 {
        '7'
    } else if d == 8 {
        '8'
    } else {
        '9'
    }
}

/// `n` in decimal.
pub fn decimal_string(n: u16) -> (r: String)
    ensures
        r@ == decimal(n as nat),
    decreases n,
{
    if n < 10 {
        let mut s = String::new();
        string_push(&mut s, digit(n));
        assert(s@ =~= seq![digit_char(n as nat)]);
        s
    } else {
        let mut s = decimal_string(n / 10);
        string_push(&mut s, digit(n % 10));
        s
    }
}

/// The address of the MQTT broker on `host`, with the port when one is
/// given.
pub open spec fn spec_mqtt_uri(host: Seq<char>, port: Option<u16>) -> Seq<char> {
    match port {
        Some(p) => "tcp://"@ + host + ":"@ + decimal(p as nat),
        None => "tcp://"@ + host,
    }
}

/// The address of the MQTT broker on `host`, with the port when one is
/// given.
pub fn mqtt_uri(host: &String, port: Option<u16>) -> (r: String)
    ensures
        r@ == spec_mqtt_uri(host@, port),
{
    let a = string_concat(&string_from_str("tcp://"), host);
    match port {
        Some(p) => {
            let b = string_concat(&a, &string_from_str(":"));
            string_concat(&b, &decimal_string(p))
        },
        None => a,
    }
}

/// The index of the first of `topics` equal to `topic`, if any.
pub fn topic_index(topics: &Vec<String>, topic: &String) -> (r: Option<usize>)
    ensures
        r matches Some(i) ==> i < topics@.len() && topics@[i as int]@ == topic@ && forall|j: int|
            0 <= j < i ==> topics@[j]@ != topic@,
        r is None ==> forall|j: int| 0 <= j < topics@.len() ==> topics@[j]@ != topic@,
{
    let mut i: usize = 0;
    while i < topics.len()
        invariant
            i <= topics@.len(),
            forall|j: int| 0 <= j < i ==> topics@[j]@ != topic@,
        decreases topics@.len() - i,
    {
        if string_eq(&topics[i], topic) {
            return Some(i);
        }
        i = i + 1;
    }
    None
}

/// All the values, when every one is there; `None` as soon as one is
/// missing.
pub fn all_present<T: Copy>(items: &Vec<Option<T>>) -> (r: Option<Vec<T>>)
    ensures
        r matches Some(v) ==> v@.len() == items@.len() && forall|i: int|
            0 <= i < items@.len() ==> items@[i] == Some(#[trigger] v@[i]),
        r is None ==> exists|i: int| 0 <= i < items@.len() && items@[i] is None,
{
    let mut r: Vec<T> = Vec::new();
    let mut i: usize = 0;
    while i < items.len()
        invariant
            i <= items@.len(),
            r@.len() == i,
            forall|j: int| 0 <= j < i ==> items@[j] == Some(#[trigger] r@[j]),
        decreases items@.len() - i,
    {
        match items[i] {
            Some(x) => {
                r.push(x);
            },
            None => {
                return None;
            },
        }
        i = i + 1;
    }
    Some(r)
}

/// The variable that receives messages on `topic`: of the (variable,
/// topic) pairs subscribed, the last one with that topic.
pub fn route_topic(var_topics: &Vec<(VarName, String)>, topic: &String) -> (r: Option<VarName>)
    ensures
        r matches Some(v) ==> exists|i: int|
            0 <= i < var_topics@.len() && var_topics@[i].1@ == topic@ && var_topics@[i].0@ == v@
                && forall|j: int| i < j < var_topics@.len() ==> var_topics@[j].1@ != topic@,
        r is None ==> forall|j: int| 0 <= j < var_topics@.len() ==> var_topics@[j].1@ != topic@,
{
    let mut k: usize = var_topics.len();
    while k > 0
        invariant
            k <= var_topics@.len(),
            forall|j: int| k <= j < var_topics@.len() ==> var_topics@[j].1@ != topic@,
        decreases k,
    {
        if string_eq(&var_topics[k - 1].1, topic) {
            return Some(var_topics[k - 1].0.duplicate());
        }
        k = k - 1;
    }
    None
}

/// Counts the reconnection attempts of an MQTT message stream since the
/// last message: a message resets the count, a lost connection adds one, and
/// the stream stops once more than `max_attempts` were needed.
pub struct ReconnectTracker {
    max_attempts: u32,
    attempts: u64,
}

impl ReconnectTracker {
    #[verifier::type_invariant]
    spec fn inv(&self) -> bool {
        self.attempts <= self.max_attempts as u64 + 1
    }

    /// The most reconnections tried in a row.
    pub closed spec fn max(&self) -> nat {
        self.max_attempts as nat
    }

    /// The reconnections tried since the last message.
    pub closed spec fn count(&self) -> nat {
        self.attempts as nat
    }

    /// No attempts yet.
    pub fn new(max_attempts: u32) -> (r: Self)
        ensures
            r.max() == max_attempts,
            r.count() == 0,
    {
        ReconnectTracker { max_attempts, attempts: 0 }
    }

    /// Whether the stream still runs: it stops once the count passes the
    /// maximum.
    pub fn running(&self) -> (r: bool)
        ensures
            r == (self.count() <= self.max()),
    {
        self.attempts <= self.max_attempts as u64
    }

    /// A message arrived: the count starts again.
    pub fn message_received(&mut self)
        ensures
            final(self).max() == old(self).max(),
            final(self).count() == 0,
    {
        self.attempts = 0;
    }

    /// The connection was lost while the stream runs: one more attempt, and
    /// whether to reconnect (not once the count passes the maximum).
    pub fn connection_lost(&mut self) -> (reconnect: bool)
        requires
            old(self).count() <= old(self).max(),
        ensures
            final(self).max() == old(self).max(),
            final(self).count() == old(self).count() + 1,
            reconnect == (final(self).count() <= final(self).max()),
    {
        self.attempts = self.attempts + 1;
        self.attempts <= self.max_attempts as u64
    }
}

} // verus!
