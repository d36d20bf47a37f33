//! The settings of one upstream network.
use vstd::prelude::*;
use crate::text::strs;

verus! {

#[derive(Clone, Debug)]
pub struct Config {
    /// The short label of the network in composite channel names.
    pub name: String,
    pub nick: String,
    pub host: String,
    pub port: u16,
    pub pass: String,
    pub ssl: bool,
    /// The server-local channels joined once the server welcomes us.
    pub chans: Vec<String>,
}

pub struct ConfigView {
    pub name: Seq<char>,
    pub nick: Seq<char>,
    pub host: Seq<char>,
    pub port: u16,
    pub pass: Seq<char>,
    pub ssl: bool,
    pub chans: Seq<Seq<char>>,
}

impl View for Config {
    type V = ConfigView;

    open spec fn view(&self) -> ConfigView {
        ConfigView {
            name: self.name@,
            nick: self.nick@,
            host: self.host@,
            port: self.port,
            pass: self.pass@,
            ssl: self.ssl,
            chans: strs(self.chans@),
        }
    }
}

} // verus!
