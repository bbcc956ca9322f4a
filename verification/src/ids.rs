//! Session identifier derivation.
//!
//! A client session is keyed by `client_<host>_<port>` and a server session
//! by `server_<port>`, both derived deterministically from the connection
//! parameters.  The lemmas at the end show that the derivation is injective
//! (distinct parameters give distinct identifiers) and that a client
//! identifier can never collide with a server identifier.

use vstd::prelude::*;

verus! {

/// The character for one decimal digit.
pub open spec fn digit_char(d: nat) -> char {
    if d == 0 {
        '0'
    } else if d == 1 {
        '1'
    } else if d == 2 {
        '2'
    } else if d == 3 {
        '3'
    } else if d == 4 {
        '4'
    } else if d == 5 {
        '5'
    } else if d == 6 {
        '6'
    } else if d == 7 {
        '7'
    } else if d == 8 {
        '8'
    } else {
        '9'
    }
}

/// The decimal representation of `n`, most significant digit first,
/// without leading zeros (a single `0` for zero).
pub open spec fn dec_seq(n: nat) -> Seq<char>
    decreases n,
{
    if n < 10 {
        seq![digit_char(n)]
    } else {
        dec_seq(n / 10).push(digit_char(n % 10))
    }
}

/// The identifier of a client session to `host:port`.
pub open spec fn client_id_spec(host: Seq<char>, port: u16) -> Seq<char> {
    "client_"@ + host + "_"@ + dec_seq(port as nat)
}

/// The identifier of a server session listening on `port`.
pub open spec fn server_id_spec(port: u16) -> Seq<char> {
    "server_"@ + dec_seq(port as nat)
}

fn digit_str(d: u16) -> (s: &'static str)
    requires
        d < 10,
    ensures
        s@ == seq![digit_char(d as nat)],
{
    match d {
        0 => {
            proof {
                reveal_strlit("0");
                assert("0"@ =~= seq![digit_char(0)]);
            }
            "0"
        },
        1 => {
            proof {
                reveal_strlit("1");
                assert("1"@ =~= seq![digit_char(1)]);
            }
            "1"
        },
        2 => {
            proof {
                reveal_strlit("2");
                assert("2"@ =~= seq![digit_char(2)]);
            }
            "2"
        },
        3 => {
            proof {
                reveal_strlit("3");
                assert("3"@ =~= seq![digit_char(3)]);
            }
            "3"
        },
        4 => {
            proof {
                reveal_strlit("4");
                assert("4"@ =~= seq![digit_char(4)]);
            }
            "4"
        },
        5 => {
            proof {
                reveal_strlit("5");
                assert("5"@ =~= seq![digit_char(5)]);
            }
            "5"
        },
        6 => {
            proof {
                reveal_strlit("6");
                assert("6"@ =~= seq![digit_char(6)]);
            }
            "6"
        },
        7 => {
            proof {
                reveal_strlit("7");
                assert("7"@ =~= seq![digit_char(7)]);
            }
            "7"
        },
        8 => {
            proof {
                reveal_strlit("8");
                assert("8"@ =~= seq![digit_char(8)]);
            }
            "8"
        },
        _ => {
            proof {
                reveal_strlit("9");
                assert("9"@ =~= seq![digit_char(9)]);
            }
            "9"
        },
    }
}

/// The decimal representation of `n` as a string.
pub fn u16_to_dec(n: u16) -> (s: String)
    ensures
        s@ == dec_seq(n as nat),
    decreases n,
{
    if n < 10 {
        String::from_str(digit_str(n))
    } else {
        let mut s = u16_to_dec(n / 10);
        let d = digit_str(n % 10);
        s.append(d);
        proof {
            assert(s@ =~= dec_seq(n as nat));
        }
        s
    }
}

/// Derives the identifier under which a client connection to `host:port`
/// is registered.
pub fn client_id_for(host: &str, port: u16) -> (id: String)
    ensures
        id@ == client_id_spec(host@, port),
{
    let mut id = String::from_str("client_");
    id.append(host);
    id.append("_");
    let digits = u16_to_dec(port);
    id.append(digits.as_str());
    proof {
        assert(id@ =~= client_id_spec(host@, port));
    }
    id
}

/// Derives the identifier under which a listener on `port` is registered.
pub fn server_id_for(port: u16) -> (id: String)
    ensures
        id@ == server_id_spec(port),
{
    let mut id = String::from_str("server_");
    let digits = u16_to_dec(port);
    id.append(digits.as_str());
    proof {
        assert(id@ =~= server_id_spec(port));
    }
    id
}

/// Every character of a decimal representation is a digit; in particular
/// it is never the underscore that separates host from port.
pub proof fn lemma_dec_seq_no_underscore(n: nat)
    ensures
        forall|i: int| 0 <= i < dec_seq(n).len() ==> #[trigger] dec_seq(n)[i] != '_',
    decreases n,
{
    if n < 10 {
        assert(dec_seq(n)[0] == digit_char(n));
    } else {
        lemma_dec_seq_no_underscore(n / 10);
        let prefix = dec_seq(n / 10);
        assert forall|i: int| 0 <= i < dec_seq(n).len() implies #[trigger] dec_seq(n)[i]
            != '_' by {
            if i < prefix.len() {
                assert(dec_seq(n)[i] == prefix[i]);
            } else {
                assert(dec_seq(n)[i] == digit_char(n % 10));
            }
        }
    }
}

/// A decimal representation is never empty.
pub proof fn lemma_dec_seq_len(n: nat)
    ensures
        dec_seq(n).len() >= 1,
        n >= 10 ==> dec_seq(n).len() >= 2,
    decreases n,
{
    if n >= 10 {
        lemma_dec_seq_len(n / 10);
    }
}

/// Decimal representation is injective: equal digit strings come from
/// equal numbers.
pub proof fn lemma_dec_seq_injective(a: nat, b: nat)
    requires
        dec_seq(a) == dec_seq(b),
    ensures
        a == b,
    decreases a,
{
    lemma_dec_seq_len(a);
    lemma_dec_seq_len(b);
    if a < 10 && b < 10 {
        assert(dec_seq(a)[0] == digit_char(a));
        assert(dec_seq(b)[0] == digit_char(b));
    } else if a < 10 && b >= 10 {
        assert(dec_seq(a).len() == 1);
        assert(dec_seq(b).len() >= 2);
    } else if a >= 10 && b < 10 {
        assert(dec_seq(a).len() >= 2);
        assert(dec_seq(b).len() == 1);
    } else {
        let sa = dec_seq(a / 10);
        let sb = dec_seq(b / 10);
        assert(dec_seq(a).last() == digit_char(a % 10));
        assert(dec_seq(b).last() == digit_char(b % 10));
        assert(a % 10 == b % 10);
        assert(sa =~= dec_seq(a).drop_last());
        assert(sb =~= dec_seq(b).drop_last());
        lemma_dec_seq_injective(a / 10, b / 10);
    }
}

/// Client identifier derivation is injective: distinct `(host, port)`
/// pairs always yield distinct identifiers.
pub proof fn lemma_client_id_injective(h1: Seq<char>, p1: u16, h2: Seq<char>, p2: u16)
    requires
        client_id_spec(h1, p1) == client_id_spec(h2, p2),
    ensures
        h1 == h2,
        p1 == p2,
{
    reveal_strlit("client_");
    reveal_strlit("_");
    let s1 = client_id_spec(h1, p1);
    let s2 = client_id_spec(h2, p2);
    let d1 = dec_seq(p1 as nat);
    let d2 = dec_seq(p2 as nat);
    lemma_dec_seq_len(p1 as nat);
    lemma_dec_seq_len(p2 as nat);
    lemma_dec_seq_no_underscore(p1 as nat);
    lemma_dec_seq_no_underscore(p2 as nat);
    assert(s1.len() == 8 + h1.len() + d1.len());
    assert(s2.len() == 8 + h2.len() + d2.len());
    if h1.len() == h2.len() {
        assert(h1 =~= s1.subrange(7, 7 + h1.len() as int));
        assert(h2 =~= s2.subrange(7, 7 + h2.len() as int));
        assert(h1 == h2);
        assert(d1 =~= s1.subrange(8 + h1.len() as int, s1.len() as int));
        assert(d2 =~= s2.subrange(8 + h2.len() as int, s2.len() as int));
        lemma_dec_seq_injective(p1 as nat, p2 as nat);
    } else if h1.len() < h2.len() {
        // On the longer-host side, position 7 + h2.len() holds the
        // underscore separator; on the shorter-host side the same position
        // falls inside the digit block, which holds no underscore.
        let k = 7 + h2.len() as int;
        assert(s2[k] == '_');
        let off = k - (8 + h1.len() as int);
        assert(0 <= off < d1.len());
        assert(s1[k] == d1[off]);
        assert(d1[off] != '_');
        assert(false);
    } else {
        let k = 7 + h1.len() as int;
        assert(s1[k] == '_');
        let off = k - (8 + h2.len() as int);
        assert(0 <= off < d2.len());
        assert(s2[k] == d2[off]);
        assert(d2[off] != '_');
        assert(false);
    }
}

/// Server identifier derivation is injective.
pub proof fn lemma_server_id_injective(p1: u16, p2: u16)
    requires
        server_id_spec(p1) == server_id_spec(p2),
    ensures
        p1 == p2,
{
    reveal_strlit("server_");
    let d1 = dec_seq(p1 as nat);
    let d2 = dec_seq(p2 as nat);
    assert(d1 =~= server_id_spec(p1).subrange(7, server_id_spec(p1).len() as int));
    assert(d2 =~= server_id_spec(p2).subrange(7, server_id_spec(p2).len() as int));
    lemma_dec_seq_injective(p1 as nat, p2 as nat);
}

/// A client identifier never collides with a server identifier: the two
/// registries and the directory can never confuse the two kinds.
pub proof fn lemma_client_server_ids_distinct(host: Seq<char>, p: u16, q: u16)
    ensures
        client_id_spec(host, p) != server_id_spec(q),
{
    reveal_strlit("client_");
    reveal_strlit("server_");
    assert(client_id_spec(host, p)[0] == 'c');
    assert(server_id_spec(q)[0] == 's');
}

} // verus!
