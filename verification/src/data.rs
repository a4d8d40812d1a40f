//! The records that travel through an export: leaderboard pages, their
//! users, and the settings of a run.

use vstd::prelude::*;

verus! {

/// What a [`User`] stands for: a name and a point total.
pub struct UserView {
    pub username: Seq<char>,
    pub points: u64,
}

/// What an [`Alltime`] page stands for: the record count that the service
/// declared, and the page's own slice of users, in the order received.
pub struct PageView {
    pub total: u64,
    pub users: Seq<UserView>,
}

/// What the settings of a run stand for.
pub struct ConfigView {
    pub channel: Seq<char>,
    pub cutoff: Option<u64>,
}

/// The views of a sequence of users, in the same order.
pub open spec fn user_views(users: Seq<User>) -> Seq<UserView> {
    users.map_values(|u: User| u@)
}

/// One entry of the leaderboard.
#[derive(Debug, Clone, PartialEq, Eq)]
pub struct User {
    username: String,
    pub points: u64,
}

impl User {
    pub fn new(username: String, points: u64) -> (user: User)
        ensures
            user@ == (UserView { username: username@, points }),
    {
        User { username, points }
    }

    pub fn username(&self) -> (name: &str)
        ensures
            name@ == self@.username,
    {
        self.username.as_str()
    }

    pub fn points(&self) -> (points: u64)
        ensures
            points == self@.points,
    {
        self.points
    }

    /// A second record with the same name and points.
    pub fn duplicate(&self) -> (copy: User)
        ensures
            copy@ == self@,
    {
        User { username: self.username.clone(), points: self.points }
    }
}

impl View for User {
    type V = UserView;

    closed spec fn view(&self) -> UserView {
        UserView { username: self.username@, points: self.points }
    }
}

/// One page of the leaderboard as the service returned it.
#[derive(Debug, Clone, PartialEq, Eq)]
pub struct Alltime {
    pub _total: u64,
    users: Vec<User>,
}

impl Alltime {
    pub fn new(total: u64, users: Vec<User>) -> (page: Alltime)
        ensures
            page@ == (PageView { total, users: user_views(users@) }),
    {
        Alltime { _total: total, users }
    }

    pub fn total(&self) -> (total: u64)
        ensures
            total == self@.total,
    {
        self._total
    }

    pub fn users(&self) -> (users: &Vec<User>)
        ensures
            user_views(users@) == self@.users,
    {
        &self.users
    }

    pub fn into_users(self) -> (users: Vec<User>)
        ensures
            user_views(users@) == self@.users,
    {
        self.users
    }
}

impl View for Alltime {
    type V = PageView;

    closed spec fn view(&self) -> PageView {
        PageView { total: self._total, users: user_views(self.users@) }
    }
}

/// The settings read from the configuration: the channel whose leaderboard
/// is exported, and the optional point cutoff.
#[derive(Debug, Clone, PartialEq, Eq)]
pub struct Config {
    channel: String,
    cutoff: Option<u64>,
}

impl Config {
    pub fn new(channel: String, cutoff: Option<u64>) -> (config: Config)
        ensures
            config@ == (ConfigView { channel: channel@, cutoff }),
    {
        Config { channel, cutoff }
    }

    pub fn channel(&self) -> (channel: &str)
        ensures
            channel@ == self@.channel,
    {
        self.channel.as_str()
    }

    pub fn cutoff(&self) -> (cutoff: Option<u64>)
        ensures
            cutoff == self@.cutoff,
    {
        self.cutoff
    }
}

impl View for Config {
    type V = ConfigView;

    closed spec fn view(&self) -> ConfigView {
        ConfigView { channel: self.channel@, cutoff: self.cutoff }
    }
}

/// The configuration document: its one table holds the [`Config`].
#[derive(Debug, Clone, PartialEq, Eq)]
pub struct ActualConfig {
    info: Config,
}

impl ActualConfig {
    pub fn new(info: Config) -> (config: ActualConfig)
        ensures
            config@ == info@,
    {
        ActualConfig { info }
    }

    pub fn channel(&self) -> (channel: &str)
        ensures
            channel@ == self@.channel,
    {
        self.info.channel()
    }

    pub fn cutoff(&self) -> (cutoff: Option<u64>)
        ensures
            cutoff == self@.cutoff,
    {
        self.info.cutoff()
    }
}

impl View for ActualConfig {
    type V = ConfigView;

    closed spec fn view(&self) -> ConfigView {
        self.info@
    }
}

} // verus!
