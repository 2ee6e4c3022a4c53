//! A WebSocket protocol engine and multi-room broadcast relay: the frame
//! codec, the message reassembler, the connection actor's decisions, the room
//! registry with its broadcast tick, and the small HTTP layer that carries the
//! upgrade handshake.

pub mod frame;
pub mod message;
pub mod connection;
pub mod room;
pub mod registry;
pub mod text;
pub mod request;
pub mod response;
pub mod handshake;
pub mod server;

use vstd::prelude::*;
use vstd::string::*;

verus! {

/// The name of an HTTP header, held in lower case: names that differ in the
/// case of ASCII letters only are one name.
#[derive(Debug, Clone, PartialEq, Eq, PartialOrd, Ord, Hash)]
pub struct HeaderName(String);

impl View for HeaderName {
    type V = Seq<char>;

    closed spec fn view(&self) -> Seq<char> {
        self.0@
    }
}

impl HeaderName {
    pub fn from_str(src: &str) -> (r: Self)
        ensures
            r@ == text::spec_ascii_lowercase(src@),
    {
        HeaderName(text::ascii_lowercase(src))
    }

    pub fn as_str(&self) -> (r: &str)
        ensures
            r@ == self@,
    {
        self.0.as_str()
    }
}

/// The last place in `headers` that holds `name`, or -1.
pub open spec fn spec_header_index(headers: Seq<(Seq<char>, Seq<char>)>, name: Seq<char>) -> int
    decreases headers.len(),
{
    if headers.len() == 0 {
        -1
    } else if headers.last().0 == name {
        headers.len() - 1
    } else {
        spec_header_index(headers.drop_last(), name)
    }
}

/// The value that `headers` hold for `name`.
pub open spec fn spec_header_value(headers: Seq<(Seq<char>, Seq<char>)>, name: Seq<char>) -> Option<
    Seq<char>,
> {
    if spec_header_index(headers, name) >= 0 {
        Some(headers[spec_header_index(headers, name)].1)
    } else {
        None
    }
}

/// `headers` with `value` for `name`: in the place of the value that the
/// name had, or at the end where it had none.
pub open spec fn spec_header_insert(
    headers: Seq<(Seq<char>, Seq<char>)>,
    name: Seq<char>,
    value: Seq<char>,
) -> Seq<(Seq<char>, Seq<char>)> {
    if spec_header_index(headers, name) >= 0 {
        headers.update(spec_header_index(headers, name), (name, value))
    } else {
        headers.push((name, value))
    }
}

/// What `spec_header_index` gives: a place that holds the name and after
/// which none does, or -1 where none does.
pub proof fn lemma_header_index(headers: Seq<(Seq<char>, Seq<char>)>, name: Seq<char>)
    ensures
        -1 <= spec_header_index(headers, name) < headers.len(),
        spec_header_index(headers, name) >= 0 ==> headers[spec_header_index(headers, name)].0 == name,
        forall|j: int|
            spec_header_index(headers, name) < j < headers.len() ==> (#[trigger] headers[j]).0 != name,
    decreases headers.len(),
{
    if headers.len() > 0 && headers.last().0 != name {
        lemma_header_index(headers.drop_last(), name);
        assert forall|j: int| spec_header_index(headers, name) < j < headers.len() implies (
        #[trigger] headers[j]).0 != name by {
            if j < headers.len() - 1 {
                assert(headers.drop_last()[j] == headers[j]);
            }
        }
    }
}

/// A place that holds the name and after which none does is the one that
/// `spec_header_index` gives.
pub proof fn lemma_header_index_is(headers: Seq<(Seq<char>, Seq<char>)>, name: Seq<char>, at: int)
    requires
        -1 <= at < headers.len(),
        at >= 0 ==> headers[at].0 == name,
        forall|j: int| at < j < headers.len() ==> (#[trigger] headers[j]).0 != name,
    ensures
        spec_header_index(headers, name) == at,
    decreases headers.len(),
{
    if headers.len() > 0 {
        if headers.last().0 == name {
            assert(headers[headers.len() - 1].0 == name);
        } else {
            let rest = headers.drop_last();
            assert forall|j: int| at < j < rest.len() implies (#[trigger] rest[j]).0 != name by {
                assert(rest[j] == headers[j]);
            }
            lemma_header_index_is(rest, name, at);
        }
    }
}

/// The headers of a request or a response: one value for each name.
#[derive(Debug)]
pub struct Headers {
    entries: Vec<(HeaderName, String)>,
}

impl View for Headers {
    type V = Seq<(Seq<char>, Seq<char>)>;

    closed spec fn view(&self) -> Seq<(Seq<char>, Seq<char>)> {
        Seq::new(self.entries@.len(), |i: int| (self.entries@[i].0@, self.entries@[i].1@))
    }
}

impl Clone for Headers {
    fn clone(&self) -> (r: Self)
        ensures
            r@ == self@,
    {
        let mut entries: Vec<(HeaderName, String)> = Vec::new();
        let mut i: usize = 0;
        while i < self.entries.len()
            invariant
                i <= self.entries@.len(),
                entries@.len() == i,
                forall|j: int|
                    0 <= j < i ==> (#[trigger] entries@[j]).0@ == self.entries@[j].0@ && entries@[j].1@
                        == self.entries@[j].1@,
            decreases self.entries@.len() - i,
        {
            entries.push((HeaderName(self.entries[i].0.0.clone()), self.entries[i].1.clone()));
            i += 1;
        }
        let r = Headers { entries };
        assert(r@ =~= self@);
        r
    }
}

impl Headers {
    pub fn new() -> (r: Self)
        ensures
            r@ == Seq::<(Seq<char>, Seq<char>)>::empty(),
    {
        let r = Headers { entries: Vec::new() };
        assert(r@ =~= Seq::<(Seq<char>, Seq<char>)>::empty());
        r
    }

    pub fn len(&self) -> (n: usize)
        ensures
            n == self@.len(),
    {
        self.entries.len()
    }

    /// The last place that holds `name`, if one does.
    fn index_of(&self, name: &HeaderName) -> (r: Option<usize>)
        ensures
            match r {
                Some(i) => i == spec_header_index(self@, name@),
                None => spec_header_index(self@, name@) == -1,
            },
    {
        let mut i: usize = self.entries.len();
        while i > 0
            invariant
                i <= self.entries@.len(),
                forall|j: int| i <= j < self@.len() ==> (#[trigger] self@[j]).0 != name@,
            decreases i,
        {
            i -= 1;
            if self.entries[i].0.0 == name.0 {
                proof {
                    assert(self@[i as int].0 == name@);
                    lemma_header_index_is(self@, name@, i as int);
                }
                return Some(i);
            }
        }
        proof {
            lemma_header_index_is(self@, name@, -1);
        }
        None
    }

    /// The value held for `name`.
    pub fn get(&self, name: &HeaderName) -> (r: Option<&String>)
        ensures
            match r {
                Some(v) => spec_header_value(self@, name@) == Some(v@),
                None => spec_header_value(self@, name@) is None,
            },
    {
        match self.index_of(name) {
            Some(i) => {
                proof {
                    lemma_header_index(self@, name@);
                }
                Some(&self.entries[i].1)
            },
            None => None,
        }
    }

    /// Sets the value for `name`.
    pub fn insert(&mut self, name: HeaderName, value: String)
        ensures
            final(self)@ == spec_header_insert(old(self)@, name@, value@),
    {
        match self.index_of(&name) {
            Some(i) => {
                proof {
                    lemma_header_index(self@, name@);
                }
                self.entries[i].1 = value;
                assert(self@ =~= spec_header_insert(old(self)@, name@, value@));
            },
            None => {
                self.entries.push((name, value));
                assert(self@ =~= spec_header_insert(old(self)@, name@, value@));
            },
        }
    }

    /// The name and the value at `i`.
    pub fn entry(&self, i: usize) -> (r: (&str, &str))
        requires
            i < self@.len(),
        ensures
            r.0@ == self@[i as int].0,
            r.1@ == self@[i as int].1,
    {
        (self.entries[i].0.as_str(), self.entries[i].1.as_str())
    }
}

} // verus!
