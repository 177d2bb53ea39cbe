//! A key names one flow, and a flow finds the registrations that were made
//! for it.

use crate::addr::{is_address_char, Address};
use crate::details::{session_key, FlowNoSrcPort, SessionDetails};
use crate::fields::{all_free_of, free_of, join, lemma_split_join, split};
use crate::laws::colon::{lemma_ip_text_chars, lemma_ip_text_injective};
use crate::laws::numerals::{lemma_dec_text, lemma_dec_text_free};
use crate::text::dec_text;
use crate::tracker::merged;
use vstd::prelude::*;

verus! {

/// The fields of the key of a flow: the phantom's text and the port for a
/// version 6 phantom, with the client's text before them for a version 4
/// phantom.
pub open spec fn key_fields(client: Address, phantom: Address, port: nat) -> Seq<Seq<char>> {
    if phantom is V6 {
        seq![phantom.text(), dec_text(port)]
    } else {
        seq![client.text(), phantom.text(), dec_text(port)]
    }
}

/// A key is its fields with a hyphen between them, and no field holds a
/// hyphen: cutting a key at its hyphens gives the fields back.
pub proof fn lemma_key_fields(client: Address, phantom: Address, port: nat)
    requires
        client.wf(),
        phantom.wf(),
    ensures
        session_key(client, phantom, port) == join(key_fields(client, phantom, port), '-'),
        split(session_key(client, phantom, port), '-') == key_fields(client, phantom, port),
{
    let fs = key_fields(client, phantom, port);
    lemma_ip_text_chars(client);
    lemma_ip_text_chars(phantom);
    lemma_dec_text_free(port, '-');
    assert(free_of(client.text(), '-')) by {
        assert forall|i: int| 0 <= i < client.text().len() implies #[trigger] client.text()[i]
            != '-' by {
            assert(is_address_char(client.text()[i]));
        }
    }
    assert(free_of(phantom.text(), '-')) by {
        assert forall|i: int| 0 <= i < phantom.text().len() implies #[trigger] phantom.text()[i]
            != '-' by {
            assert(is_address_char(phantom.text()[i]));
        }
    }
    assert(all_free_of(fs, '-'));
    if phantom is V6 {
        assert(join(fs.drop_last(), '-') == fs[0]);
        assert(join(fs, '-') =~= session_key(client, phantom, port));
    } else {
        let f2 = fs.drop_last();
        assert(join(f2.drop_last(), '-') == fs[0]);
        assert(join(f2, '-') == join(f2.drop_last(), '-').push('-') + fs[1]);
        assert(join(fs, '-') == join(f2, '-').push('-') + fs[2]);
        assert(join(fs, '-') =~= session_key(client, phantom, port));
    }
    lemma_split_join(fs, '-');
}

/// A key names one flow: two flows with the same key have the same phantom
/// and the same port, and for a version 4 phantom the same client too.
pub proof fn lemma_session_key_injective(
    client1: Address,
    phantom1: Address,
    port1: nat,
    client2: Address,
    phantom2: Address,
    port2: nat,
)
    requires
        client1.wf(),
        phantom1.wf(),
        client2.wf(),
        phantom2.wf(),
        session_key(client1, phantom1, port1) == session_key(client2, phantom2, port2),
    ensures
        phantom1 == phantom2,
        port1 == port2,
        phantom1 is V4 ==> client1 == client2,
{
    lemma_key_fields(client1, phantom1, port1);
    lemma_key_fields(client2, phantom2, port2);
    let f1 = key_fields(client1, phantom1, port1);
    let f2 = key_fields(client2, phantom2, port2);
    assert(f1 == f2);
    assert(f1.len() == f2.len());
    lemma_dec_text(port1);
    lemma_dec_text(port2);
    if phantom1 is V6 {
        assert(f1[0] == f2[0] && f1[1] == f2[1]);
        lemma_ip_text_injective(phantom1, phantom2);
    } else {
        assert(f1[0] == f2[0] && f1[1] == f2[1] && f1[2] == f2[2]);
        lemma_ip_text_injective(phantom1, phantom2);
        lemma_ip_text_injective(client1, client2);
    }
}

/// A registration and a flow with the same client, phantom and port have
/// the same key, whatever the version of the addresses: what was
/// registered is found when the flow is looked up.
pub proof fn lemma_flow_key_matches_registration(d: SessionDetails, f: FlowNoSrcPort)
    requires
        f.src_ip@ == d.client_ip@,
        f.dst_ip@ == d.phantom_ip@,
        f.dst_port as u32 == d.phantom_port,
    ensures
        f.key() == d.key(),
        forall|m: Map<Seq<char>, u64>, expiry: u64| #[trigger]
            merged(m, d.key(), expiry).contains_key(f.key()),
{
}

/// The key of a version 6 phantom leaves the client out: two registrations
/// that differ in the client only have the same key.
pub proof fn lemma_v6_key_ignores_client(d1: SessionDetails, d2: SessionDetails)
    requires
        d1.phantom_ip@ is V6,
        d1.phantom_ip@ == d2.phantom_ip@,
        d1.phantom_port == d2.phantom_port,
    ensures
        d1.key() == d2.key(),
{
}

/// The key of a version 4 phantom holds the client: two registrations that
/// differ in the client have different keys.
pub proof fn lemma_v4_key_includes_client(d1: SessionDetails, d2: SessionDetails)
    requires
        d1.phantom_ip@ is V4,
        d1.phantom_ip@ == d2.phantom_ip@,
        d1.phantom_port == d2.phantom_port,
        d1.client_ip@ != d2.client_ip@,
    ensures
        d1.key() != d2.key(),
{
    if d1.key() == d2.key() {
        lemma_session_key_injective(
            d1.client_ip@,
            d1.phantom_ip@,
            d1.phantom_port as nat,
            d2.client_ip@,
            d2.phantom_ip@,
            d2.phantom_port as nat,
        );
    }
}

/// Two registrations have the same key exactly if they have the same
/// phantom and port and, for a version 4 phantom, the same client.
pub proof fn lemma_same_key_same_flow(d1: SessionDetails, d2: SessionDetails)
    ensures
        d1.key() == d2.key() <==> {
            &&& d1.phantom_ip@ == d2.phantom_ip@
            &&& d1.phantom_port == d2.phantom_port
            &&& (d1.phantom_ip@ is V4 ==> d1.client_ip@ == d2.client_ip@)
        },
{
    if d1.key() == d2.key() {
        lemma_session_key_injective(
            d1.client_ip@,
            d1.phantom_ip@,
            d1.phantom_port as nat,
            d2.client_ip@,
            d2.phantom_ip@,
            d2.phantom_port as nat,
        );
    }
}

/// A flow has the key of a registration exactly if it goes to the
/// registration's phantom and port and, for a version 4 phantom, comes from
/// its client: a lookup finds what was registered for the flow and nothing
/// else.
pub proof fn lemma_flow_finds_its_registration(d: SessionDetails, f: FlowNoSrcPort)
    ensures
        f.key() == d.key() <==> {
            &&& f.dst_ip@ == d.phantom_ip@
            &&& f.dst_port as u32 == d.phantom_port
            &&& (d.phantom_ip@ is V4 ==> f.src_ip@ == d.client_ip@)
        },
{
    if f.key() == d.key() {
        lemma_session_key_injective(
            f.src_ip@,
            f.dst_ip@,
            f.dst_port as nat,
            d.client_ip@,
            d.phantom_ip@,
            d.phantom_port as nat,
        );
    }
}

/// A registration at a port beyond the 16 bits of a port is the
/// registration of no flow.
pub proof fn lemma_wide_port_matches_no_flow(d: SessionDetails, f: FlowNoSrcPort)
    requires
        d.phantom_port > 0xffff,
    ensures
        f.key() != d.key(),
{
    lemma_flow_finds_its_registration(d, f);
}

} // verus!
