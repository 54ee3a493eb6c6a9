use vstd::prelude::*;
use vstd::string::StringExecFns;
use crate::env::Env;
use crate::text::{dec_text, decimal, string_of};

verus! {

broadcast use vstd::string::group_string_axioms;

/// Variables of a plain TCP connection from `peer_ip`:`peer_port`, piped to the
/// `/tcp_handle` script with a buffer of `buffer` bytes.
pub fn tcp_env(peer_ip: &str, peer_port: u16, buffer: u32) -> (env: Env)
    ensures
        env@ == Map::<Seq<char>, Seq<char>>::empty().insert("Req_Script_Name"@, "/tcp_handle"@).insert(
            "Req_Peer_Ip"@,
            peer_ip@,
        ).insert("Req_Peer_Port"@, dec_text(peer_port as nat)).insert(
            "Req_Buffer_Size"@,
            dec_text(buffer as nat),
        ),
{
    let mut env = Env::new();
    env.insert(String::from_str("Req_Script_Name"), String::from_str("/tcp_handle"));
    env.insert(String::from_str("Req_Peer_Ip"), peer_ip.to_owned());
    env.insert(String::from_str("Req_Peer_Port"), string_of(decimal(peer_port as u64).as_slice()));
    env.insert(String::from_str("Req_Buffer_Size"), string_of(decimal(buffer as u64).as_slice()));
    env
}

} // verus!
