//! Where a tool call runs: in-process for the local tools, else on the
//! automation server.
use vstd::prelude::*;
use crate::codec;
use crate::common::tools::registry;

verus! {

/// Where a tool call goes.
#[derive(Debug)]
pub enum ToolRoute {
    /// Run by the local registry.
    Local,
    /// Posted to this URL of the automation server.
    Remote(String),
}

/// The automation server's endpoint for tool `name`.
pub open spec fn spec_tool_url(auto_port: u16, name: Seq<char>) -> Seq<char> {
    "http://127.0.0.1:"@ + codec::spec_decimal(auto_port as nat) + "/tools/"@ + name
}

pub fn tool_url(auto_port: u16, name: &str) -> (r: String)
    ensures
        r@ == spec_tool_url(auto_port, name@),
{
    let mut r = String::from_str("http://127.0.0.1:");
    let d = codec::decimal(auto_port as u64);
    r.append(d.as_str());
    r.append("/tools/");
    r.append(name);
    r
}

/// Local tools run in-process; every other tool is forwarded.
pub fn route(name: &str, auto_port: u16) -> (r: ToolRoute)
    ensures
        match r {
            ToolRoute::Local => registry::spec_local_tool_names().contains(name@),
            ToolRoute::Remote(url) => !registry::spec_local_tool_names().contains(name@) && url@
                == spec_tool_url(auto_port, name@),
        },
{
    if registry::is_local_tool(name) {
        ToolRoute::Local
    } else {
        ToolRoute::Remote(tool_url(auto_port, name))
    }
}

/// The result reported when the forwarded call's reply cannot be read.
pub fn read_error(err: &str) -> (r: String)
    ensures
        r@ == "Error reading response: "@ + err@,
{
    let mut r = String::from_str("Error reading response: ");
    r.append(err);
    r
}

/// The result reported when the forwarded call fails.
pub fn call_error(name: &str, err: &str) -> (r: String)
    ensures
        r@ == "Error calling server_auto tool '"@ + name@ + "': "@ + err@,
{
    let mut r = String::from_str("Error calling server_auto tool '");
    r.append(name);
    r.append("': ");
    r.append(err);
    r
}

} // verus!
