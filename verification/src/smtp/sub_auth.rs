use vstd::prelude::*;
use vstd::string::StringSliceAdditionalSpecFns;
use crate::text::push_str;

verus! {

pub const AUTH_REQUIRED: &'static str = "530 5.7.0 Authentication required\r\n";

#[derive(Clone, Copy, Debug, PartialEq, Eq)]
pub enum SubmissionGate {
    Proceed,
    Reject(&'static [u8]),
}

/// The submission port serves authenticated sessions only.
pub fn guard_submission(authenticated: bool) -> (gate: SubmissionGate)
    ensures
        authenticated ==> gate == SubmissionGate::Proceed,
        !authenticated ==> (gate matches SubmissionGate::Reject(r) && r@ == AUTH_REQUIRED.spec_bytes()),
{
    if authenticated {
        SubmissionGate::Proceed
    } else {
        SubmissionGate::Reject(AUTH_REQUIRED.as_bytes())
    }
}

/// The addresses an account owns: its primary address `local@domain` when
/// the domain of the account is known, then its aliases in order.
pub open spec fn spec_owned_addresses(local_part: Seq<char>, domain: Option<Seq<char>>, aliases: Seq<Seq<char>>) -> Seq<Seq<char>> {
    let primary: Seq<Seq<char>> = match domain {
        Some(d) => seq![local_part + seq!['@'] + d],
        None => Seq::empty(),
    };
    primary + aliases
}

/// The addresses an authenticated account may send from.
pub fn owned_addresses(local_part: &str, domain: Option<&str>, aliases: &[String]) -> (owned: Vec<String>)
    ensures
        owned@.map_values(|s: String| s@) == spec_owned_addresses(
            local_part@,
            match domain {
                Some(d) => Some(d@),
                None => None,
            },
            aliases@.map_values(|s: String| s@),
        ),
{
    let mut owned: Vec<String> = Vec::new();
    let ghost head: Seq<Seq<char>> = Seq::empty();
    if let Some(d) = domain {
        let mut primary = String::new();
        push_str(&mut primary, local_part);
        push_str(&mut primary, "@");
        push_str(&mut primary, d);
        proof {
            reveal_strlit("@");
        }
        assert(primary@ =~= local_part@ + seq!['@'] + d@);
        owned.push(primary);
        proof {
            head = seq![local_part@ + seq!['@'] + d@];
        }
        assert(owned@.map_values(|s: String| s@) =~= head);
    }
    assert(owned@.map_values(|s: String| s@) =~= head);
    let mut i: usize = 0;
    while i < aliases.len()
        invariant
            i <= aliases@.len(),
            owned@.map_values(|s: String| s@) == head + aliases@.map_values(|s: String| s@).take(i as int),
        decreases aliases@.len() - i,
    {
        let ghost before = owned@;
        owned.push(aliases[i].clone());
        proof {
            assert(owned@ == before.push(aliases@[i as int]));
            assert(owned@.map_values(|s: String| s@) =~= before.map_values(|s: String| s@).push(aliases@[i as int]@));
            assert(aliases@.map_values(|s: String| s@).take(i + 1) =~= aliases@.map_values(|s: String| s@).take(i as int).push(aliases@[i as int]@));
        }
        i += 1;
    }
    assert(aliases@.map_values(|s: String| s@).take(aliases@.len() as int) =~= aliases@.map_values(|s: String| s@));
    owned
}

} // verus!
