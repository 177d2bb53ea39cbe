//! Which registrations are accepted.

use crate::details::{
    checks_into, loopback_v6, resolved_client, validation_error, SessionDetails, SessionError,
};
use crate::parse::{
    denotes_v4, denotes_v6, first_double_colon, is_first_double_colon, parse_ip_text,
    parse_ipv4_text, parse_ipv6_text,
};
use crate::fields::split;
use crate::text::{hex_group_of, octet_of};
use vstd::prelude::*;

verus! {

/// The empty text denotes no address.
pub proof fn lemma_empty_text_is_no_address()
    ensures
        parse_ip_text(Seq::<char>::empty()) is None,
{
    let e = Seq::<char>::empty();
    let fs = seq![e];
    assert(split(e, '.') == fs);
    assert(split(e, ':') == fs);
    assert(octet_of(fs[0]) is None);
    assert(parse_ipv4_text(e) is None);
    assert(hex_group_of(fs[0]) is None);
    assert forall|p: int| !is_first_double_colon(e, p) by {}
    assert(first_double_colon(e) is None);
    assert(parse_ipv6_text(e) is None);
}

/// An empty client text beside a version 6 phantom stands for the loopback
/// address, and the registration is accepted; beside a version 4 phantom it
/// is an invalid client.
pub proof fn lemma_empty_client(phantom: Seq<char>)
    ensures
        denotes_v6(phantom) ==> {
            &&& resolved_client(Seq::<char>::empty(), parse_ip_text(phantom).unwrap()) == Some(
                loopback_v6(),
            )
            &&& validation_error(Seq::<char>::empty(), phantom) is None
        },
        denotes_v4(phantom) ==> validation_error(Seq::<char>::empty(), phantom) == Some(
            SessionError::InvalidClient,
        ),
{
    lemma_empty_text_is_no_address();
}

/// A version 4 phantom with a version 6 client is a mismatch; a version 6
/// phantom takes a client of either version, a version 4 phantom one of
/// version 4; and a phantom text that denotes no address is an invalid
/// phantom whatever the client.
pub proof fn lemma_families(client: Seq<char>, phantom: Seq<char>)
    ensures
        denotes_v4(phantom) && denotes_v6(client) ==> validation_error(client, phantom) == Some(
            SessionError::MixedV4V6Error,
        ),
        denotes_v6(phantom) && parse_ip_text(client) is Some ==> validation_error(client, phantom)
            is None,
        denotes_v4(phantom) && denotes_v4(client) ==> validation_error(client, phantom) is None,
        parse_ip_text(phantom) is None ==> validation_error(client, phantom) == Some(
            SessionError::InvalidPhantom,
        ),
{
}

/// The addresses of an accepted registration fit together: a version 4
/// phantom has a version 4 client.
pub proof fn lemma_accepted_is_wf(
    client: Seq<char>,
    phantom: Seq<char>,
    port: u32,
    timeout: u64,
    d: SessionDetails,
)
    requires
        checks_into(client, phantom, port, timeout, Ok(d)),
    ensures
        d.wf(),
{
}

} // verus!
