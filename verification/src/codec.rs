//! Serialized forms of `ChannelType` and `ChannelState`, and parsing them
//! back. The round-trip lemmas state that the two directions are inverse.

use crate::label::str_eq;
use crate::numerals::{
    lemma_dec_digits, lemma_parse_dec, parse_u64, spec_dec, spec_parse_u64, u64_to_string,
};
use crate::stats::{ChannelState, ChannelType};
use vstd::prelude::*;

verus! {

/// Serialized form of a channel kind: `bounded[N]`, `unbounded`, `oneshot`.
pub open spec fn spec_type_str(t: ChannelType) -> Seq<char> {
    match t {
        ChannelType::Bounded(c) => "bounded["@ + spec_dec(c as nat) + "]"@,
        ChannelType::Unbounded => "unbounded"@,
        ChannelType::Oneshot => "oneshot"@,
    }
}

/// What deserializing a channel kind accepts (see `spec_type_str`).
pub open spec fn spec_parse_channel_type(s: Seq<char>) -> Option<ChannelType> {
    if s == "unbounded"@ {
        Some(ChannelType::Unbounded)
    } else if s == "oneshot"@ {
        Some(ChannelType::Oneshot)
    } else {
        let plen = "bounded["@.len() as int;
        if s.len() > plen && s.take(plen) == "bounded["@ && s.last() == ']' {
            match spec_parse_u64(s.subrange(plen, s.len() - 1)) {
                Some(v) => if v <= usize::MAX as u64 {
                    Some(ChannelType::Bounded(v as usize))
                } else {
                    None
                },
                None => None,
            }
        } else {
            None
        }
    }
}

/// Serialized form of a channel state, a lowercase identifier.
pub open spec fn spec_parse_channel_state(s: Seq<char>) -> Option<ChannelState> {
    if s == "active"@ {
        Some(ChannelState::Active)
    } else if s == "closed"@ {
        Some(ChannelState::Closed)
    } else if s == "full"@ {
        Some(ChannelState::Full)
    } else if s == "notified"@ {
        Some(ChannelState::Notified)
    } else {
        None
    }
}

impl ChannelType {
    /// The serialized form (see `spec_type_str`).
    pub fn to_display_string(&self) -> (r: String)
        ensures
            r@ == spec_type_str(*self),
    {
        match self {
            ChannelType::Bounded(c) => {
                let mut r = "bounded[".to_owned();
                let num = u64_to_string(*c as u64);
                r.append(num.as_str());
                r.append("]");
                r
            },
            ChannelType::Unbounded => "unbounded".to_owned(),
            ChannelType::Oneshot => "oneshot".to_owned(),
        }
    }

    /// Parse a serialized channel kind (see `spec_parse_channel_type`).
    pub fn parse(s: &str) -> (r: Option<ChannelType>)
        ensures
            r == spec_parse_channel_type(s@),
    {
        proof {
            reveal_strlit("bounded[");
        }
        if str_eq(s, "unbounded") {
            return Some(ChannelType::Unbounded);
        }
        if str_eq(s, "oneshot") {
            return Some(ChannelType::Oneshot);
        }
        let n = s.unicode_len();
        if n < 9 {
            return None;
        }
        let prefix = s.substring_char(0, 8);
        proof {
            assert(prefix@ =~= s@.take(8));
        }
        if !str_eq(prefix, "bounded[") {
            return None;
        }
        if s.get_char(n - 1) != ']' {
            return None;
        }
        let inner = s.substring_char(8, n - 1);
        proof {
            assert(inner@ =~= s@.subrange(8, s@.len() - 1));
        }
        match parse_u64(inner) {
            Some(v) => {
                if v <= usize::MAX as u64 {
                    Some(ChannelType::Bounded(v as usize))
                } else {
                    None
                }
            },
            None => None,
        }
    }
}

impl ChannelState {
    /// Parse a serialized channel state (see `spec_parse_channel_state`).
    pub fn parse(s: &str) -> (r: Option<ChannelState>)
        ensures
            r == spec_parse_channel_state(s@),
    {
        if str_eq(s, "active") {
            Some(ChannelState::Active)
        } else if str_eq(s, "closed") {
            Some(ChannelState::Closed)
        } else if str_eq(s, "full") {
            Some(ChannelState::Full)
        } else if str_eq(s, "notified") {
            Some(ChannelState::Notified)
        } else {
            None
        }
    }
}

/// Serializing a channel kind and parsing it back yields the kind again.
pub proof fn lemma_channel_type_round_trip(t: ChannelType)
    ensures
        spec_parse_channel_type(spec_type_str(t)) == Some(t),
{
    reveal_strlit("bounded[");
    reveal_strlit("]");
    reveal_strlit("unbounded");
    reveal_strlit("oneshot");
    match t {
        ChannelType::Unbounded => {},
        ChannelType::Oneshot => {
            assert("oneshot"@ != "unbounded"@);
        },
        ChannelType::Bounded(c) => {
            let s = spec_type_str(t);
            lemma_dec_digits(c as nat);
            assert(s[0] == 'b');
            assert(s != "unbounded"@);
            assert(s != "oneshot"@);
            assert(s.take(8) =~= "bounded["@);
            assert(s.last() == ']');
            assert(s.subrange(8, s.len() - 1) =~= spec_dec(c as nat));
            lemma_parse_dec(c as u64);
        },
    }
}

/// Serializing a channel state and parsing it back yields the state again.
pub proof fn lemma_channel_state_round_trip(st: ChannelState)
    ensures
        spec_parse_channel_state(st.spec_str()) == Some(st),
{
    reveal_strlit("active");
    reveal_strlit("closed");
    reveal_strlit("full");
    reveal_strlit("notified");
    assert("closed"@[0] != "active"@[0]);
    assert("full"@.len() != "active"@.len());
    assert("full"@.len() != "closed"@.len());
    assert("notified"@.len() != "active"@.len());
    assert("notified"@.len() != "closed"@.len());
    assert("notified"@.len() != "full"@.len());
}

} // verus!
