//! The configuration of a session.

use crate::locator::{parse_locator, same_text, Locator, LocatorView};
use crate::types::ZInt;
use vstd::prelude::*;

verus! {

/// The role of a peer.
#[derive(Debug, Clone, Copy, PartialEq, Eq, Structural)]
pub enum WhatAmI {
    Broker,
    Router,
    Peer,
    Client,
}

impl WhatAmI {
    /// The bit that stands for the role on the network.
    pub open spec fn spec_bits(self) -> ZInt {
        match self {
            WhatAmI::Broker => 0x01,
            WhatAmI::Router => 0x02,
            WhatAmI::Peer => 0x04,
            WhatAmI::Client => 0x08,
        }
    }

    /// The bit that stands for the role on the network.
    #[verifier::when_used_as_spec(spec_bits)]
    pub fn bits(self) -> (b: ZInt)
        ensures
            b == self.spec_bits(),
    {
        match self {
            WhatAmI::Broker => 0x01,
            WhatAmI::Router => 0x02,
            WhatAmI::Peer => 0x04,
            WhatAmI::Client => 0x08,
        }
    }
}

/// A span of time: whole seconds and the nanoseconds beyond them.
#[derive(Debug, Clone, Copy, PartialEq, Eq, Structural)]
pub struct Duration {
    pub secs: u64,
    pub nanos: u32,
}

impl Duration {
    /// The span of `millis` milliseconds.
    pub fn from_millis(millis: u64) -> (d: Duration)
        ensures
            d.secs == millis / 1000,
            d.nanos == (millis % 1000) * 1_000_000,
    {
        Duration { secs: millis / 1000, nanos: ((millis % 1000) as u32) * 1_000_000 }
    }
}

/// What a configuration holds.
pub struct ConfigView {
    pub whatami: WhatAmI,
    pub peers: Seq<LocatorView>,
    pub listeners: Seq<LocatorView>,
    pub multicast_interface: Seq<char>,
    pub scouting_delay: Duration,
    pub add_timestamp: bool,
}

/// The views of a list of locators.
pub open spec fn locator_views(locators: Seq<Locator>) -> Seq<LocatorView> {
    locators.map_values(|l: Locator| l@)
}

/// The locators that a list of texts writes.
pub open spec fn parsed(texts: Seq<&str>) -> Seq<LocatorView> {
    texts.map_values(|t: &str| parse_locator(t@)->0)
}

/// Every text of the list writes a locator.
pub open spec fn all_locators(texts: Seq<&str>) -> bool {
    forall|i: int| 0 <= i < texts.len() ==> parse_locator((#[trigger] texts[i])@) is Some
}

/// The role that a word names.
pub open spec fn spec_parse_mode(m: Seq<char>) -> Result<WhatAmI, ()> {
    if m == "peer"@ {
        Ok(WhatAmI::Peer)
    } else if m == "client"@ {
        Ok(WhatAmI::Client)
    } else if m == "router"@ {
        Ok(WhatAmI::Router)
    } else if m == "broker"@ {
        Ok(WhatAmI::Broker)
    } else {
        Err(())
    }
}

/// The configuration of a session.
#[derive(Debug)]
pub struct Config {
    pub whatami: WhatAmI,
    pub peers: Vec<Locator>,
    pub listeners: Vec<Locator>,
    pub multicast_interface: String,
    pub scouting_delay: Duration,
    pub add_timestamp: bool,
}

impl View for Config {
    type V = ConfigView;

    open spec fn view(&self) -> ConfigView {
        ConfigView {
            whatami: self.whatami,
            peers: locator_views(self.peers@),
            listeners: locator_views(self.listeners@),
            multicast_interface: self.multicast_interface@,
            scouting_delay: self.scouting_delay,
            add_timestamp: self.add_timestamp,
        }
    }
}

/// Appends the locators that the texts write.
fn extend(list: &mut Vec<Locator>, texts: &Vec<&str>)
    requires
        all_locators(texts@),
    ensures
        locator_views(final(list)@) == locator_views(old(list)@) + parsed(texts@),
{
    let ghost start = locator_views(list@);
    let mut i: usize = 0;
    assert(start + parsed(texts@).take(0) =~= start);
    while i < texts.len()
        invariant
            i <= texts.len(),
            all_locators(texts@),
            locator_views(list@) == start + parsed(texts@).take(i as int),
        decreases texts.len() - i,
    {
        let ghost before = locator_views(list@);
        assert(parse_locator(texts@[i as int]@) is Some);
        match Locator::parse(texts[i]) {
            Ok(locator) => {
                let ghost view = locator@;
                list.push(locator);
                assert(locator_views(list@) =~= before.push(view));
                assert(start + parsed(texts@).take(i + 1) =~= (start + parsed(texts@).take(
                    i as int,
                )).push(view));
            },
            Err(_) => {},
        }
        i += 1;
    }
    assert(parsed(texts@).take(texts@.len() as int) =~= parsed(texts@));
}

impl Config {
    /// The configuration of a session in the given role: nothing to dial,
    /// nothing to listen on, any interface, a scouting delay of 250
    /// milliseconds, no timestamps.
    pub open spec fn initial(whatami: WhatAmI) -> ConfigView {
        ConfigView {
            whatami,
            peers: Seq::empty(),
            listeners: Seq::empty(),
            multicast_interface: "auto"@,
            scouting_delay: Duration { secs: 0, nanos: 250_000_000 },
            add_timestamp: false,
        }
    }

    fn with_mode(whatami: WhatAmI) -> (config: Config)
        ensures
            config@ == Self::initial(whatami),
    {
        let config = Config {
            whatami,
            peers: Vec::new(),
            listeners: Vec::new(),
            multicast_interface: "auto".to_owned(),
            scouting_delay: Duration::from_millis(250),
            add_timestamp: false,
        };
        assert(locator_views(config.peers@) =~= Seq::empty());
        assert(locator_views(config.listeners@) =~= Seq::empty());
        config
    }

    /// The same configuration in another role.
    pub fn mode(self, w: WhatAmI) -> (config: Config)
        ensures
            config@ == (ConfigView { whatami: w, ..self@ }),
    {
        let mut config = self;
        config.whatami = w;
        config
    }

    /// The configuration of a peer.
    pub fn peer() -> (config: Config)
        ensures
            config@ == Self::initial(WhatAmI::Peer),
    {
        Config::with_mode(WhatAmI::Peer)
    }

    /// The configuration of a client.
    pub fn client() -> (config: Config)
        ensures
            config@ == Self::initial(WhatAmI::Client),
    {
        Config::with_mode(WhatAmI::Client)
    }

    /// The same configuration with one more locator to dial.
    pub fn add_peer(self, locator: &str) -> (config: Config)
        requires
            parse_locator(locator@) is Some,
        ensures
            config@ == (ConfigView {
                peers: self@.peers.push(parse_locator(locator@)->0),
                ..self@
            }),
    {
        let mut config = self;
        let ghost before = locator_views(config.peers@);
        match Locator::parse(locator) {
            Ok(parsed) => {
                let ghost view = parsed@;
                config.peers.push(parsed);
                assert(locator_views(config.peers@) =~= before.push(view));
            },
            Err(_) => {},
        }
        config
    }

    /// The same configuration with more locators to dial.
    pub fn add_peers(self, locators: Vec<&str>) -> (config: Config)
        requires
            all_locators(locators@),
        ensures
            config@ == (ConfigView { peers: self@.peers + parsed(locators@), ..self@ }),
    {
        let mut config = self;
        extend(&mut config.peers, &locators);
        config
    }

    /// The same configuration with one more locator to listen on.
    pub fn add_listener(self, locator: &str) -> (config: Config)
        requires
            parse_locator(locator@) is Some,
        ensures
            config@ == (ConfigView {
                listeners: self@.listeners.push(parse_locator(locator@)->0),
                ..self@
            }),
    {
        let mut config = self;
        let ghost before = locator_views(config.listeners@);
        match Locator::parse(locator) {
            Ok(parsed) => {
                let ghost view = parsed@;
                config.listeners.push(parsed);
                assert(locator_views(config.listeners@) =~= before.push(view));
            },
            Err(_) => {},
        }
        config
    }

    /// The same configuration with more locators to listen on.
    pub fn add_listeners(self, locators: Vec<&str>) -> (config: Config)
        requires
            all_locators(locators@),
        ensures
            config@ == (ConfigView { listeners: self@.listeners + parsed(locators@), ..self@ }),
    {
        let mut config = self;
        extend(&mut config.listeners, &locators);
        config
    }

    /// The same configuration with another interface for multicast.
    pub fn multicast_interface(self, name: String) -> (config: Config)
        ensures
            config@ == (ConfigView { multicast_interface: name@, ..self@ }),
    {
        let mut config = self;
        config.multicast_interface = name;
        config
    }

    /// The same configuration with another scouting delay.
    pub fn scouting_delay(self, delay: Duration) -> (config: Config)
        ensures
            config@ == (ConfigView { scouting_delay: delay, ..self@ }),
    {
        let mut config = self;
        config.scouting_delay = delay;
        config
    }

    /// The role that a word names: `peer`, `client`, `router` or `broker`.
    pub fn parse_mode(m: &str) -> (r: Result<WhatAmI, ()>)
        ensures
            r == spec_parse_mode(m@),
    {
        if same_text(m, "peer") {
            Ok(WhatAmI::Peer)
        } else if same_text(m, "client") {
            Ok(WhatAmI::Client)
        } else if same_text(m, "router") {
            Ok(WhatAmI::Router)
        } else if same_text(m, "broker") {
            Ok(WhatAmI::Broker)
        } else {
            Err(())
        }
    }

    /// The same configuration with timestamps on what is sent.
    pub fn add_timestamp(self) -> (config: Config)
        ensures
            config@ == (ConfigView { add_timestamp: true, ..self@ }),
    {
        let mut config = self;
        config.add_timestamp = true;
        config
    }
}

impl Default for Config {
    fn default() -> (config: Config)
        ensures
            config@ == Config::initial(WhatAmI::Peer),
    {
        Config::with_mode(WhatAmI::Peer)
    }
}

} // verus!
