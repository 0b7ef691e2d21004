//! The peer identity helpers: deriving the textual machine id that the
//! always-present peer service reports.
//!
//! Reading the platform's id (a file on some systems, a host UUID call on
//! others) is input/output and lives outside this crate; the functions
//! here do the verified part, from plain bytes to the reported id.

use vstd::prelude::*;

use crate::error::Error;

verus! {

/// Whether a byte is ASCII whitespace.
pub open spec fn spec_is_space(c: u8) -> bool {
    c == 32 || c == 9 || c == 10 || c == 13 || c == 12
}

/// The length of `s` once trailing ASCII whitespace is dropped: the
/// smallest cut such that everything after it is whitespace.
pub open spec fn spec_trim_len(s: Seq<u8>) -> int
    decreases s.len(),
{
    if s.len() == 0 {
        0
    } else if spec_is_space(s[s.len() - 1]) {
        spec_trim_len(s.drop_last())
    } else {
        s.len() as int
    }
}

/// The lowercase hex digit for a value below 16.
pub open spec fn spec_hex_digit(x: u8) -> u8 {
    if x < 10 {
        (48 + x) as u8
    } else {
        (87 + x) as u8
    }
}

/// The lowercase hex text of a byte string: two digits per byte.
pub open spec fn spec_hex(s: Seq<u8>) -> Seq<u8>
    decreases s.len(),
{
    if s.len() == 0 {
        Seq::empty()
    } else {
        seq![
            spec_hex_digit(s[0] / 16),
            spec_hex_digit(s[0] % 16),
        ] + spec_hex(s.drop_first())
    }
}

/// The machine id derived from the raw bytes of the platform's id file:
/// the text with trailing whitespace removed.  `None` stands for a
/// platform read that failed; it is reported as an input/output error, as
/// the read itself would have been.
pub fn get_machine_id(raw: Option<Vec<u8>>) -> (r: Result<Vec<u8>, Error>)
    ensures
        match r {
            Ok(id) => raw is Some && id@ == raw->Some_0@.take(spec_trim_len(raw->Some_0@)),
            Err(e) => raw is None && e is InputOutput,
        },
{
    let mut id = match raw {
        Option::Some(id) => id,
        Option::None => {
            return Err(Error::InputOutput("failed to read the machine id".to_owned()));
        },
    };
    let mut n = id.len();
    proof {
        assert(id@.take(id@.len() as int) =~= id@);
    }
    loop
        invariant
            0 <= n <= id@.len(),
            spec_trim_len(id@) == spec_trim_len(id@.take(n as int)),
        ensures
            0 <= n <= id@.len(),
            spec_trim_len(id@) == n,
        decreases n,
    {
        if n == 0 {
            proof {
                assert(id@.take(0int) =~= Seq::<u8>::empty());
            }
            break;
        }
        let c = id[n - 1];
        if !(c == 32 || c == 9 || c == 10 || c == 13 || c == 12) {
            proof {
                assert(id@.take(n as int).last() == id@[n - 1]);
                assert(spec_trim_len(id@.take(n as int)) == n);
            }
            break;
        }
        proof {
            assert(id@.take(n as int).drop_last() =~= id@.take(n - 1));
        }
        n = n - 1;
    }
    id.truncate(n);
    Ok(id)
}

/// The hex-encoded machine id derived from a 16-byte host UUID: 32
/// lowercase hex characters.
pub fn machine_id_from_uuid(uuid: &[u8]) -> (r: Vec<u8>)
    ensures
        r@ == spec_hex(uuid@),
        r@.len() == 2 * uuid@.len(),
{
    let mut out: Vec<u8> = Vec::new();
    let mut i: usize = 0;
    proof {
        lemma_spec_hex_len(uuid@);
    }
    while i < uuid.len()
        invariant
            0 <= i <= uuid@.len(),
            out@ == spec_hex(uuid@.take(i as int)),
            out@.len() == 2 * i,
        decreases uuid@.len() - i,
    {
        let b = uuid[i];
        let hi = b / 16;
        let lo = b % 16;
        out.push(
            if hi < 10 {
                48 + hi
            } else {
                87 + hi
            },
        );
        out.push(
            if lo < 10 {
                48 + lo
            } else {
                87 + lo
            },
        );
        proof {
            lemma_spec_hex_snoc(uuid@, i as int);
        }
        i = i + 1;
    }
    proof {
        assert(uuid@.take(uuid@.len() as int) =~= uuid@);
        lemma_spec_hex_len(uuid@);
    }
    out
}

pub proof fn lemma_spec_hex_len(s: Seq<u8>)
    ensures
        spec_hex(s).len() == 2 * s.len(),
    decreases s.len(),
{
    if s.len() > 0 {
        lemma_spec_hex_len(s.drop_first());
    }
}

/// Hex text of one more byte extends the hex text of the prefix.
pub proof fn lemma_spec_hex_snoc(s: Seq<u8>, i: int)
    requires
        0 <= i < s.len(),
    ensures
        spec_hex(s.take(i + 1)) == spec_hex(s.take(i)) + seq![
            spec_hex_digit(s[i] / 16),
            spec_hex_digit(s[i] % 16),
        ],
    decreases i,
{
    reveal_with_fuel(spec_hex, 3);
    if i == 0 {
        assert(s.take(1) =~= seq![s[0]]);
        assert(s.take(1).drop_first() =~= Seq::<u8>::empty());
        assert(s.take(0) =~= Seq::<u8>::empty());
        assert(spec_hex(s.take(1)) =~= spec_hex(s.take(0)) + seq![
            spec_hex_digit(s[0] / 16),
            spec_hex_digit(s[0] % 16),
        ]);
    } else {
        lemma_spec_hex_snoc(s.drop_first(), i - 1);
        assert(s.take(i + 1).drop_first() =~= s.drop_first().take(i));
        assert(s.take(i).drop_first() =~= s.drop_first().take(i - 1));
        assert(s.take(i + 1)[0] == s[0]);
        assert(s.take(i)[0] == s[0]);
        assert(s.drop_first()[i - 1] == s[i]);
        assert(spec_hex(s.take(i + 1)) =~= spec_hex(s.take(i)) + seq![
            spec_hex_digit(s[i] / 16),
            spec_hex_digit(s[i] % 16),
        ]);
    }
}

/// The always-present peer service: answers pings and reports the machine
/// id that the surrounding program hands it.
pub struct Peer;

impl Peer {
    /// On receipt of a ping an application does nothing but reply.
    pub fn ping(&self) {
    }

    /// The machine id derived from the raw platform bytes; see
    /// [`get_machine_id`].
    pub fn get_machine_id(&self, raw: Option<Vec<u8>>) -> (r: Result<Vec<u8>, Error>)
        ensures
            match r {
                Ok(id) => raw is Some && id@ == raw->Some_0@.take(spec_trim_len(raw->Some_0@)),
                Err(e) => raw is None && e is InputOutput,
            },
    {
        get_machine_id(raw)
    }
}

} // verus!
