//! Selection of the loopback endpoint the listener is bound to.
//!
//! Endpoints are tried in a fixed order: all ports of one address first, then
//! the next address. Only the last two octets of `127.0.c.d` vary, and both
//! stay inside a reserved sub-range, away from the addresses that other local
//! tools conventionally pick.

use vstd::prelude::*;

verus! {

/// First port tried on every address.
pub const LISTENER_PORT_RESET: u16 = 30000;

/// Lowest value of the third and of the fourth octet.
pub const LISTENER_OCTET_START: u8 = 9;

/// Why a server could not be constructed.
#[derive(Clone, Copy, Debug, PartialEq, Eq, Structural)]
pub enum LauncherError {
    /// Every endpoint of the reserved range was tried and none could be bound.
    IpcListenerCouldNotBeBound,
}

/// The endpoint `127.0.third.fourth:port`.
#[derive(Clone, Copy, Debug, PartialEq, Eq, Structural)]
pub struct ListenEndpoint {
    pub third_octet: u8,
    pub fourth_octet: u8,
    pub port: u16,
}

impl ListenEndpoint {
    /// Both octets and the port lie in the reserved range.
    pub open spec fn is_reserved(self) -> bool {
        &&& self.third_octet >= LISTENER_OCTET_START
        &&& self.fourth_octet >= LISTENER_OCTET_START
        &&& self.port >= LISTENER_PORT_RESET
    }

    /// The endpoint tried first.
    pub open spec fn initial() -> ListenEndpoint {
        ListenEndpoint {
            third_octet: LISTENER_OCTET_START,
            fourth_octet: LISTENER_OCTET_START,
            port: LISTENER_PORT_RESET,
        }
    }

    /// The endpoint after which nothing is left to try.
    pub open spec fn is_last(self) -> bool {
        self.third_octet == 255 && self.fourth_octet == 255 && self.port == 65535
    }

    /// How many endpoints are tried before this one.
    pub open spec fn rank(self) -> int {
        ((self.third_octet - LISTENER_OCTET_START) * 247 + (self.fourth_octet
            - LISTENER_OCTET_START)) * 35536 + (self.port - LISTENER_PORT_RESET)
    }

    /// The endpoint tried after this one: the next port; past the last port
    /// the next fourth octet, from the first port; past the last fourth octet
    /// the next third octet, from the first fourth octet.
    pub open spec fn successor(self) -> ListenEndpoint {
        if self.port < 65535 {
            ListenEndpoint { port: (self.port + 1) as u16, ..self }
        } else if self.fourth_octet < 255 {
            ListenEndpoint {
                fourth_octet: (self.fourth_octet + 1) as u8,
                port: LISTENER_PORT_RESET,
                ..self
            }
        } else {
            ListenEndpoint {
                third_octet: (self.third_octet + 1) as u8,
                fourth_octet: LISTENER_OCTET_START,
                port: LISTENER_PORT_RESET,
            }
        }
    }

    /// The endpoint to try first.
    pub fn first() -> (endpoint: ListenEndpoint)
        ensures
            endpoint == ListenEndpoint::initial(),
            endpoint.is_reserved(),
            endpoint.rank() == 0,
    {
        ListenEndpoint {
            third_octet: LISTENER_OCTET_START,
            fourth_octet: LISTENER_OCTET_START,
            port: LISTENER_PORT_RESET,
        }
    }

    /// The endpoint to try once binding this one has failed, or the error
    /// that ends the search when this was the last one.
    pub fn next(self) -> (tried: Result<ListenEndpoint, LauncherError>)
        ensures
            self.is_last() <==> tried is Err,
            tried is Err ==> tried == Err::<ListenEndpoint, LauncherError>(
                LauncherError::IpcListenerCouldNotBeBound,
            ),
            tried matches Ok(following) ==> following == self.successor(),
            tried matches Ok(following) ==> (self.is_reserved() ==> following.is_reserved()
                && following.rank() == self.rank() + 1),
    {
        if self.port == 65535 {
            if self.fourth_octet == 255 {
                if self.third_octet == 255 {
                    Err(LauncherError::IpcListenerCouldNotBeBound)
                } else {
                    Ok(
                        ListenEndpoint {
                            third_octet: self.third_octet + 1,
                            fourth_octet: LISTENER_OCTET_START,
                            port: LISTENER_PORT_RESET,
                        },
                    )
                }
            } else {
                Ok(
                    ListenEndpoint {
                        third_octet: self.third_octet,
                        fourth_octet: self.fourth_octet + 1,
                        port: LISTENER_PORT_RESET,
                    },
                )
            }
        } else {
            Ok(
                ListenEndpoint {
                    third_octet: self.third_octet,
                    fourth_octet: self.fourth_octet,
                    port: self.port + 1,
                },
            )
        }
    }
}


/// The decimal digit `d` as a character.
pub open spec fn digit_char(d: nat) -> char
    recommends
        d < 10,
{
    if d == 0 {
        '0'
    } else if d == 1 {
        '1'
    } else if d == 2 {
        '2'
    } else if d == 3 {
        '3'
    } else if d == 4 {
        '4'
    } else if d == 5 {
        '5'
    } else if d == 6 {
        '6'
    } else if d == 7 {
        '7'
    } else if d == 8 {
        '8'
    } else {
        '9'
    }
}

/// `n` in decimal, most significant digit first, without leading zeros.
pub open spec fn decimal(n: nat) -> Seq<char>
    decreases n,
{
    if n < 10 {
        seq![digit_char(n)]
    } else {
        decimal(n / 10).push(digit_char(n % 10))
    }
}

/// The text of one decimal digit.
fn digit_text(d: u16) -> (text: &'static str)
    requires
        d < 10,
    ensures
        text@ == seq![digit_char(d as nat)],
{
    proof {
        reveal_strlit("0");
        reveal_strlit("1");
        reveal_strlit("2");
        reveal_strlit("3");
        reveal_strlit("4");
        reveal_strlit("5");
        reveal_strlit("6");
        reveal_strlit("7");
        reveal_strlit("8");
        reveal_strlit("9");
    }
    let text: &'static str = if d == 0 {
        "0"
    } else if d == 1 {
        "1"
    } else if d == 2 {
        "2"
    } else if d == 3 {
        "3"
    } else if d == 4 {
        "4"
    } else if d == 5 {
        "5"
    } else if d == 6 {
        "6"
    } else if d == 7 {
        "7"
    } else if d == 8 {
        "8"
    } else {
        "9"
    };
    text
}

/// Appends `n` in decimal to `out`.
fn append_decimal(out: &mut String, n: u16)
    ensures
        final(out)@ == old(out)@ + decimal(n as nat),
    decreases n,
{
    if n >= 10 {
        append_decimal(out, n / 10);
    }
    out.append(digit_text(n % 10));
    assert(out@ =~= old(out)@ + decimal(n as nat));
}

impl ListenEndpoint {
    /// The endpoint as text: `127.0.`, the third octet, a dot, the fourth
    /// octet, a colon and the port, each number in decimal.
    pub open spec fn text(self) -> Seq<char> {
        "127.0."@ + decimal(self.third_octet as nat) + "."@ + decimal(self.fourth_octet as nat)
            + ":"@ + decimal(self.port as nat)
    }

    /// Renders the endpoint as the string that clients connect to.
    pub fn to_endpoint_string(&self) -> (rendered: String)
        ensures
            rendered@ == self.text(),
    {
        let mut rendered = String::from_str("127.0.");
        append_decimal(&mut rendered, self.third_octet as u16);
        rendered.append(".");
        append_decimal(&mut rendered, self.fourth_octet as u16);
        rendered.append(":");
        append_decimal(&mut rendered, self.port);
        rendered
    }
}

/// `bind` could not bind `endpoint`: it may answer `None` when asked for it.
pub open spec fn refused<L, F: Fn(ListenEndpoint) -> Option<L>>(
    bind: F,
    endpoint: ListenEndpoint,
) -> bool {
    call_ensures(bind, (endpoint,), None::<L>)
}

/// Searches the reserved range for an endpoint that can be bound. `bind`
/// tries one endpoint and hands back the listener where it could bind it.
/// The endpoints are tried in order of their rank, each at most once, and the
/// search ends with the first that `bind` accepts. It fails when `bind` has
/// refused every endpoint of the range.
pub fn find_endpoint<L, F: Fn(ListenEndpoint) -> Option<L>>(bind: F) -> (found: Result<
    (L, ListenEndpoint),
    LauncherError,
>)
    requires
        forall|endpoint: ListenEndpoint|
            endpoint.is_reserved() ==> call_requires(bind, (endpoint,)),
    ensures
        found matches Ok((listener, endpoint)) ==> {
            &&& endpoint.is_reserved()
            &&& call_ensures(bind, (endpoint,), Some(listener))
            &&& forall|earlier: ListenEndpoint|
                earlier.is_reserved() && earlier.rank() < endpoint.rank() ==> #[trigger] refused(
                    bind,
                    earlier,
                )
        },
        found matches Err(error) ==> {
            &&& error == LauncherError::IpcListenerCouldNotBeBound
            &&& forall|endpoint: ListenEndpoint|
                endpoint.is_reserved() ==> #[trigger] refused(bind, endpoint)
        },
{
    let mut endpoint = ListenEndpoint::first();
    loop
        invariant
            endpoint.is_reserved(),
            forall|endpoint: ListenEndpoint|
                endpoint.is_reserved() ==> call_requires(bind, (endpoint,)),
            forall|earlier: ListenEndpoint|
                earlier.is_reserved() && earlier.rank() < endpoint.rank() ==> #[trigger] refused(
                    bind,
                    earlier,
                ),
        decreases search_length() - endpoint.rank(),
    {
        match bind(endpoint) {
            Some(listener) => {
                return Ok((listener, endpoint));
            },
            None => {
                match endpoint.next() {
                    Ok(following) => {
                        proof {
                            lemma_rank_bounds(following);
                            assert forall|earlier: ListenEndpoint|
                                earlier.is_reserved() && earlier.rank()
                                    < following.rank() implies #[trigger] refused(
                                bind,
                                earlier,
                            ) by {
                                if earlier.rank() == endpoint.rank() {
                                    lemma_rank_injective(earlier, endpoint);
                                }
                            }
                        }
                        endpoint = following;
                    },
                    Err(error) => {
                        proof {
                            assert forall|other: ListenEndpoint|
                                other.is_reserved() implies #[trigger] refused(bind, other) by {
                                lemma_rank_bounds(other);
                                lemma_rank_bounds(endpoint);
                                if other.rank() == endpoint.rank() {
                                    lemma_rank_injective(other, endpoint);
                                }
                            }
                        }
                        return Err(error);
                    },
                }
            },
        }
    }
}

/// How many endpoints the reserved range holds: 247 values of each octet
/// and 35536 ports.
pub open spec fn search_length() -> int {
    247int * 247 * 35536
}

/// The search moves forward by exactly one position, and stays inside the
/// reserved range.
pub proof fn lemma_successor_advances(endpoint: ListenEndpoint)
    requires
        endpoint.is_reserved(),
        !endpoint.is_last(),
    ensures
        endpoint.successor().is_reserved(),
        endpoint.successor().rank() == endpoint.rank() + 1,
{
}

/// Positions in the search are counted from zero and bounded: after
/// `search_length()` failed attempts nothing is left to try.
pub proof fn lemma_rank_bounds(endpoint: ListenEndpoint)
    requires
        endpoint.is_reserved(),
    ensures
        0 <= endpoint.rank() < search_length(),
        endpoint.rank() == 0 <==> endpoint == ListenEndpoint::initial(),
        endpoint.rank() == search_length() - 1 <==> endpoint.is_last(),
{
}

/// No position of the search is taken by two endpoints: the search never
/// comes back to an endpoint that it has tried.
pub proof fn lemma_rank_injective(a: ListenEndpoint, b: ListenEndpoint)
    requires
        a.is_reserved(),
        b.is_reserved(),
        a.rank() == b.rank(),
    ensures
        a == b,
{
}

/// The digit that the character `c` stands for.
pub open spec fn digit_value(c: char) -> nat {
    if c == '1' {
        1
    } else if c == '2' {
        2
    } else if c == '3' {
        3
    } else if c == '4' {
        4
    } else if c == '5' {
        5
    } else if c == '6' {
        6
    } else if c == '7' {
        7
    } else if c == '8' {
        8
    } else if c == '9' {
        9
    } else {
        0
    }
}

/// The number that a string of digits stands for.
pub open spec fn decimal_value(digits: Seq<char>) -> nat
    decreases digits.len(),
{
    if digits.len() == 0 {
        0
    } else {
        decimal_value(digits.drop_last()) * 10 + digit_value(digits.last())
    }
}

/// A number in decimal is a string of at least one digit, and reading that
/// string gives the number back.
pub proof fn lemma_decimal_round_trip(n: nat)
    ensures
        decimal(n).len() >= 1,
        forall|i: int|
            0 <= i < decimal(n).len() ==> (#[trigger] decimal(n)[i]) != '.' && decimal(n)[i]
                != ':',
        decimal_value(decimal(n)) == n,
    decreases n,
{
    if n < 10 {
        assert(decimal(n).drop_last() =~= Seq::<char>::empty());
        assert(decimal_value(decimal(n).drop_last()) == 0);
    } else {
        lemma_decimal_round_trip(n / 10);
        assert(decimal(n).drop_last() =~= decimal(n / 10));
    }
}

/// Two strings that agree, each made of a part without `mark`, then `mark`,
/// then a rest, agree part by part.
proof fn lemma_split_at_mark(
    head_a: Seq<char>,
    rest_a: Seq<char>,
    head_b: Seq<char>,
    rest_b: Seq<char>,
    mark: char,
)
    requires
        head_a + seq![mark] + rest_a == head_b + seq![mark] + rest_b,
        forall|i: int| 0 <= i < head_a.len() ==> head_a[i] != mark,
        forall|i: int| 0 <= i < head_b.len() ==> head_b[i] != mark,
    ensures
        head_a == head_b,
        rest_a == rest_b,
{
    let whole_a = head_a + seq![mark] + rest_a;
    let whole_b = head_b + seq![mark] + rest_b;
    let len_a = head_a.len() as int;
    let len_b = head_b.len() as int;
    assert(whole_a[len_a] == mark);
    assert(whole_b[len_b] == mark);
    if len_a < len_b {
        assert(whole_b[len_a] == head_b[len_a]);
    }
    if len_b < len_a {
        assert(whole_a[len_b] == head_a[len_b]);
    }
    assert(len_a == len_b);
    assert(head_a =~= whole_a.subrange(0, len_a));
    assert(head_b =~= whole_b.subrange(0, len_b));
    assert(rest_a =~= whole_a.subrange(len_a + 1, whole_a.len() as int));
    assert(rest_b =~= whole_b.subrange(len_b + 1, whole_b.len() as int));
}

/// No two endpoints have the same text: a string names one endpoint only.
pub proof fn lemma_text_injective(a: ListenEndpoint, b: ListenEndpoint)
    requires
        a.text() == b.text(),
    ensures
        a == b,
{
    reveal_strlit(".");
    reveal_strlit(":");
    let prefix = "127.0."@;
    let third_a = decimal(a.third_octet as nat);
    let third_b = decimal(b.third_octet as nat);
    let fourth_a = decimal(a.fourth_octet as nat);
    let fourth_b = decimal(b.fourth_octet as nat);
    let port_a = decimal(a.port as nat);
    let port_b = decimal(b.port as nat);
    let tail_a = fourth_a + seq![':'] + port_a;
    let tail_b = fourth_b + seq![':'] + port_b;
    let after_a = third_a + seq!['.'] + tail_a;
    let after_b = third_b + seq!['.'] + tail_b;
    assert("."@ =~= seq!['.']);
    assert(":"@ =~= seq![':']);
    assert(a.text() =~= prefix + after_a);
    assert(b.text() =~= prefix + after_b);
    assert(after_a =~= (prefix + after_a).subrange(
        prefix.len() as int,
        (prefix + after_a).len() as int,
    ));
    assert(after_b =~= (prefix + after_b).subrange(
        prefix.len() as int,
        (prefix + after_b).len() as int,
    ));
    lemma_decimal_round_trip(a.third_octet as nat);
    lemma_decimal_round_trip(b.third_octet as nat);
    lemma_decimal_round_trip(a.fourth_octet as nat);
    lemma_decimal_round_trip(b.fourth_octet as nat);
    lemma_decimal_round_trip(a.port as nat);
    lemma_decimal_round_trip(b.port as nat);
    lemma_split_at_mark(third_a, tail_a, third_b, tail_b, '.');
    lemma_split_at_mark(fourth_a, port_a, fourth_b, port_b, ':');
}

} // verus!
