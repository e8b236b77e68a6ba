//! Rendering resolved endpoints as an SSH client configuration: one host
//! block per machine with a resolved endpoint.

use vstd::prelude::*;

use crate::resolver::{endpoint_view, endpoints_view, Endpoint};
use crate::text::{dec_rep, u32_to_string};

verus! {

/// The text of one host block: a comment naming the owner, then the `Host`,
/// `HostName` and `Port` lines, ended by a blank line.
pub open spec fn block_text(t: (Seq<char>, Seq<char>, Seq<char>, u16)) -> Seq<char> {
    "# owner: "@ + t.1 + "\n"@ + "Host "@ + t.0 + "\n  HostName "@ + t.2 + "\n  Port "@ + dec_rep(
        t.3 as int,
    ) + "\n\n"@
}

/// The blocks of all resolved endpoints, in order.
pub open spec fn blocks_text(eps: Seq<(Seq<char>, Seq<char>, Seq<char>, u16)>) -> Seq<char>
    decreases eps.len(),
{
    if eps.len() == 0 {
        Seq::empty()
    } else {
        blocks_text(eps.drop_last()) + block_text(eps.last())
    }
}

/// The whole generated configuration: a heading naming the source machine,
/// then one block per resolved endpoint.
pub open spec fn config_text(
    source: Seq<char>,
    eps: Seq<(Seq<char>, Seq<char>, Seq<char>, u16)>,
) -> Seq<char> {
    "# infrabase-generated SSH config for "@ + source + "\n\n"@ + blocks_text(eps)
}

/// Renders the SSH configuration for the given source machine and its
/// resolved endpoints.
pub fn render_ssh_config(source_hostname: &str, endpoints: &Vec<Endpoint>) -> (r: String)
    ensures
        r@ == config_text(source_hostname@, endpoints_view(endpoints@)),
{
    let mut out = String::from_str("# infrabase-generated SSH config for ");
    out.append(source_hostname);
    out.append("\n\n");
    proof {
        assert(endpoints_view(endpoints@.subrange(0, 0)) =~= Seq::<
            (Seq<char>, Seq<char>, Seq<char>, u16),
        >::empty());
        assert(out@ =~= config_text(
            source_hostname@,
            endpoints_view(endpoints@.subrange(0, 0)),
        ));
    }
    let mut i: usize = 0;
    while i < endpoints.len()
        invariant
            i <= endpoints@.len(),
            out@ == config_text(source_hostname@, endpoints_view(endpoints@.subrange(0, i as int))),
        decreases endpoints@.len() - i,
    {
        let ep = &endpoints[i];
        out.append("# owner: ");
        out.append(ep.owner.as_str());
        out.append("\n");
        out.append("Host ");
        out.append(ep.hostname.as_str());
        out.append("\n  HostName ");
        out.append(ep.address.as_str());
        out.append("\n  Port ");
        let pt = u32_to_string(ep.port as u32);
        out.append(pt.as_str());
        out.append("\n\n");
        i += 1;
        proof {
            let pre = endpoints@.subrange(0, i - 1);
            let now = endpoints@.subrange(0, i as int);
            assert(now.drop_last() =~= pre);
            assert(now.last() == endpoints@[i - 1]);
            assert(endpoints_view(now).drop_last() =~= endpoints_view(pre));
            assert(endpoints_view(now).last() == endpoint_view(endpoints@[i - 1]));
            assert(out@ =~= config_text(source_hostname@, endpoints_view(now)));
        }
    }
    proof {
        assert(endpoints@.subrange(0, endpoints@.len() as int) =~= endpoints@);
        assert(endpoints_view(endpoints@.subrange(0, endpoints@.len() as int)) =~= endpoints_view(
            endpoints@,
        ));
    }
    out
}

} // verus!
