//! Look-ups by identifier on the mirror and on a server.

use crate::keyed::{find_key, lookup};
use crate::state::{opt_server, State};
use crate::types::{LiveServer, Member, MemberView, ServerId, User, UserId, UserView};
use vstd::prelude::*;

verus! {

/// The view of an optional member.
pub open spec fn opt_member(r: Option<&Member>) -> Option<MemberView> {
    match r {
        Some(m) => Some(m@),
        None => None,
    }
}

/// The view of an optional user.
pub open spec fn opt_user_ref(r: Option<&User>) -> Option<UserView> {
    match r {
        Some(u) => Some(u@),
        None => None,
    }
}

/// Look-ups on the mirror.
pub trait StateExt {
    spec fn server_by_id(&self, server_id: ServerId) -> Option<crate::types::ServerView>;

    /// The server with the identifier.
    fn find_server(&self, server_id: &ServerId) -> (r: Option<&LiveServer>)
        ensures
            opt_server(r) == self.server_by_id(*server_id),
    ;
}

impl StateExt for State {
    open spec fn server_by_id(&self, server_id: ServerId) -> Option<crate::types::ServerView> {
        self@.find_server(server_id)
    }

    fn find_server(&self, server_id: &ServerId) -> (r: Option<&LiveServer>) {
        match find_key(&self.servers, server_id.0) {
            Some(i) => Some(&self.servers[i]),
            None => None,
        }
    }
}

/// Look-ups on a server.
pub trait ServerExt {
    spec fn member_by_id(&self, user_id: UserId) -> Option<MemberView>;

    /// The member with the user's identifier.
    fn find_member(&self, user_id: UserId) -> (r: Option<&Member>)
        ensures
            opt_member(r) == self.member_by_id(user_id),
    ;

    /// The account of the member with the user's identifier.
    fn find_user(&self, user_id: UserId) -> (r: Option<&User>)
        ensures
            opt_user_ref(r) == match self.member_by_id(user_id) {
                Some(m) => Some(m.user),
                None => None,
            },
    ;
}

impl ServerExt for LiveServer {
    open spec fn member_by_id(&self, user_id: UserId) -> Option<MemberView> {
        lookup::<Member>(self@.members, user_id.0)
    }

    fn find_member(&self, user_id: UserId) -> (r: Option<&Member>) {
        match find_key(&self.members, user_id.0) {
            Some(i) => Some(&self.members[i]),
            None => None,
        }
    }

    fn find_user(&self, user_id: UserId) -> (r: Option<&User>) {
        match self.find_member(user_id) {
            Some(m) => Some(&m.user),
            None => None,
        }
    }
}

} // verus!
