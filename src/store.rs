//! The key-value store behind the server: `SET` and `GET` of byte values
//! under string keys.
use mini_redis::{Command, Frame};
use vstd::prelude::*;

verus! {

#[verifier::external_type_specification]
#[verifier::external_body]
pub struct ExFrame(Frame);

/// A command that the store carries out.
pub enum Request {
    Put { key: String, value: Vec<u8> },
    Get { key: String },
}

/// What a received frame holds.
pub enum Decoded {
    Request(Request),
    /// A well-formed command that the store does not carry out.
    Unsupported,
    /// A frame that is no command.
    Invalid,
}

/// The answer to a request.
pub enum Reply {
    /// The value was stored.
    Stored,
    /// The value stored under the key asked for.
    Bulk(Vec<u8>),
    /// Nothing is stored under the key asked for.
    Null,
}

/// What became of a received frame.
pub enum Handled {
    /// The frame held a request, which was carried out.
    Replied(Reply),
    /// A well-formed command that the store does not carry out.
    Unsupported,
    /// A frame that is no command.
    Invalid,
}

/// Relies on `mini_redis::Command::from_frame`: it parses a command frame;
/// `SET` and `GET` are handed on with their key and value.
#[verifier::external_body]
fn decode_frame(frame: Frame) -> Decoded {
    match Command::from_frame(frame) {
        Ok(Command::Set(cmd)) => Decoded::Request(
            Request::Put { key: cmd.key().to_string(), value: cmd.value().to_vec() },
        ),
        Ok(Command::Get(cmd)) => Decoded::Request(Request::Get { key: cmd.key().to_string() }),
        Ok(_) => Decoded::Unsupported,
        Err(_) => Decoded::Invalid,
    }
}

/// Whether `reply` is what `req` answers on a store holding `before`, and
/// `after` what the store then holds.
pub open spec fn serves(
    before: Map<Seq<char>, Seq<u8>>,
    req: Request,
    reply: Reply,
    after: Map<Seq<char>, Seq<u8>>,
) -> bool {
    match req {
        Request::Put { key, value } => reply is Stored && after == before.insert(key@, value@),
        Request::Get { key } => {
            &&& after == before
            &&& if before.contains_key(key@) {
                reply matches Reply::Bulk(v) && v@ == before[key@]
            } else {
                reply is Null
            }
        },
    }
}

/// Values under distinct string keys.
pub struct Store {
    keys: Vec<String>,
    vals: Vec<Vec<u8>>,
}

impl View for Store {
    type V = Map<Seq<char>, Seq<u8>>;

    closed spec fn view(&self) -> Map<Seq<char>, Seq<u8>> {
        Map::new(
            |k: Seq<char>| exists|i: int| 0 <= i < self.keys@.len() && self.keys@[i]@ == k,
            |k: Seq<char>|
                self.vals@[choose|i: int| 0 <= i < self.keys@.len() && self.keys@[i]@ == k]@,
        )
    }
}

impl Store {
    /// Each key is stored once, beside its value.
    pub closed spec fn wf(&self) -> bool {
        &&& self.keys@.len() == self.vals@.len()
        &&& forall|i: int, j: int|
            0 <= i < self.keys@.len() && 0 <= j < self.keys@.len() && self.keys@[i]@
                == self.keys@[j]@ ==> i == j
    }

    /// An empty store.
    pub fn new() -> (r: Store)
        ensures
            r.wf(),
            r@ == Map::<Seq<char>, Seq<u8>>::empty(),
    {
        let r = Store { keys: Vec::new(), vals: Vec::new() };
        assert(r@ =~= Map::<Seq<char>, Seq<u8>>::empty());
        r
    }

    proof fn lemma_at(&self, i: int)
        requires
            self.wf(),
            0 <= i < self.keys@.len(),
        ensures
            self@.contains_key(self.keys@[i]@),
            self@[self.keys@[i]@] == self.vals@[i]@,
    {
        let k = self.keys@[i]@;
        assert(exists|j: int| 0 <= j < self.keys@.len() && self.keys@[j]@ == k);
    }

    fn find(&self, key: &String) -> (r: Option<usize>)
        requires
            self.wf(),
        ensures
            match r {
                Some(i) => i < self.keys@.len() && self.keys@[i as int]@ == key@,
                None => !self@.contains_key(key@),
            },
    {
        let mut i: usize = 0;
        while i < self.keys.len()
            invariant
                i <= self.keys@.len(),
                forall|j: int| 0 <= j < i ==> self.keys@[j]@ != key@,
            decreases self.keys@.len() - i,
        {
            if self.keys[i] == *key {
                return Some(i);
            }
            i += 1;
        }
        None
    }

    /// The value stored under `key`, if any.
    pub fn get(&self, key: &String) -> (r: Option<Vec<u8>>)
        requires
            self.wf(),
        ensures
            match r {
                Some(v) => self@.contains_key(key@) && v@ == self@[key@],
                None => !self@.contains_key(key@),
            },
    {
        match self.find(key) {
            Some(i) => {
                proof {
                    self.lemma_at(i as int);
                }
                Some(self.vals[i].clone())
            },
            None => None,
        }
    }

    /// Stores `value` under `key`, in place of any value stored there.
    pub fn put(&mut self, key: String, value: Vec<u8>)
        requires
            old(self).wf(),
        ensures
            final(self).wf(),
            final(self)@ == old(self)@.insert(key@, value@),
    {
        let ghost k0 = key@;
        let ghost v0 = value@;
        match self.find(&key) {
            Some(i) => {
                self.vals.set(i, value);
                proof {
                    assert forall|k: Seq<char>| #[trigger] self@.contains_key(k) implies self@[k]
                        == old(self)@.insert(k0, v0)[k] by {
                        let j = choose|j: int|
                            0 <= j < self.keys@.len() && self.keys@[j]@ == k;
                        if k == k0 {
                            assert(j == i);
                        } else {
                            assert(j != i);
                            assert(old(self)@.contains_key(k));
                        }
                    }
                    assert(self@.dom() =~= old(self)@.insert(k0, v0).dom()) by {
                        assert(old(self)@.contains_key(k0)) by {
                            old(self).lemma_at(i as int);
                        }
                    }
                    assert(self@ =~= old(self)@.insert(k0, v0));
                }
            },
            None => {
                self.keys.push(key);
                self.vals.push(value);
                proof {
                    let n = old(self).keys@.len() as int;
                    assert(self.keys@[n]@ == k0);
                    assert forall|k: Seq<char>| #[trigger] self@.contains_key(k) implies self@[k]
                        == old(self)@.insert(k0, v0)[k] by {
                        let j = choose|j: int|
                            0 <= j < self.keys@.len() && self.keys@[j]@ == k;
                        if k == k0 {
                            assert(j == n);
                        } else {
                            assert(j < n);
                            assert(old(self).keys@[j]@ == k);
                            assert(old(self)@.contains_key(k));
                            let j0 = choose|j0: int|
                                0 <= j0 < old(self).keys@.len() && old(self).keys@[j0]@ == k;
                            assert(j0 == j);
                        }
                    }
                    assert forall|k: Seq<char>|
                        old(self)@.insert(k0, v0).contains_key(k) implies #[trigger] self@.contains_key(
                        k,
                    ) by {
                        if k != k0 {
                            let j0 = choose|j0: int|
                                0 <= j0 < old(self).keys@.len() && old(self).keys@[j0]@ == k;
                            assert(self.keys@[j0]@ == k);
                        }
                    }
                    assert(self@.dom() =~= old(self)@.insert(k0, v0).dom());
                    assert(self@ =~= old(self)@.insert(k0, v0));
                }
            },
        }
    }

    /// Carries out a request and answers it.
    pub fn apply(&mut self, req: Request) -> (r: Reply)
        requires
            old(self).wf(),
        ensures
            final(self).wf(),
            serves(old(self)@, req, r, final(self)@),
    {
        match req {
            Request::Put { key, value } => {
                self.put(key, value);
                Reply::Stored
            },
            Request::Get { key } => match self.get(&key) {
                Some(v) => Reply::Bulk(v),
                None => Reply::Null,
            },
        }
    }

    /// Decodes a received frame and carries out the request it holds; the
    /// store is left as it was when the frame holds none.
    pub fn handle_frame(&mut self, frame: Frame) -> (r: Handled)
        requires
            old(self).wf(),
        ensures
            final(self).wf(),
            match r {
                Handled::Replied(reply) => exists|req: Request|
                    serves(old(self)@, req, reply, final(self)@),
                _ => final(self)@ == old(self)@,
            },
    {
        match decode_frame(frame) {
            Decoded::Request(req) => {
                let ghost g = req;
                let reply = self.apply(req);
                assert(serves(old(self)@, g, reply, self@));
                Handled::Replied(reply)
            },
            Decoded::Unsupported => Handled::Unsupported,
            Decoded::Invalid => Handled::Invalid,
        }
    }
}

} // verus!
