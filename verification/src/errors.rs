//! The tagged failure reasons that a command handler can return.
//!
//! Every failure aborts the whole command with no mutation; the host maps
//! the tag to a short human-readable reason for the client.

use vstd::prelude::*;

verus! {

/// Why a command was rejected. Every handler returns one of these instead
/// of mutating the state.
#[derive(Clone, Copy, PartialEq, Eq, Structural, Debug)]
pub enum CmdError {
    /// A referenced entity (user, channel, guild, role, permission) is absent.
    NotFound,
    /// The caller has no identity row yet.
    NotRegistered,
    /// A name failed the validator.
    InvalidName,
    /// The unique name is already in use.
    NameTaken,
    /// A message text failed the validator.
    InvalidMessage,
    /// The pair already has a friendship row.
    AlreadyFriends,
    /// The pair already has an outstanding friendship request.
    AlreadyRequested,
    /// No friendship request exists for the pair.
    NotRequested,
    /// The user is already a member of the channel or guild.
    AlreadyMember,
    /// The user is not a member of the channel.
    NotMember,
    /// Only the owner may perform the mutation.
    NotOwner,
    /// The channel owner may remove itself only as the last member.
    OwnerMustTransferFirst,
    /// The role already carries this exact permission.
    DuplicatePermission,
    /// The user already has the role.
    AlreadyAssigned,
    /// The user does not have the role.
    NotAssigned,
    /// No role of the user grants the required access.
    PermissionDenied,
}

impl CmdError {
    /// The human-readable reason for this failure.
    pub open spec fn reason_view(self) -> Seq<char> {
        match self {
            CmdError::NotFound => "Not found"@,
            CmdError::NotRegistered => "User is not registered"@,
            CmdError::InvalidName => "Name isn't valid"@,
            CmdError::NameTaken => "Name not available"@,
            CmdError::InvalidMessage => "Message content isn't valid"@,
            CmdError::AlreadyFriends => "Already a friend"@,
            CmdError::AlreadyRequested => "Already requested friendship"@,
            CmdError::NotRequested => "Friendship wasn't requested"@,
            CmdError::AlreadyMember => "Already a member"@,
            CmdError::NotMember => "Not a member"@,
            CmdError::NotOwner => "Only the owner is allowed to do this"@,
            CmdError::OwnerMustTransferFirst => "The owner needs to transfer the ownership first"@,
            CmdError::DuplicatePermission => "Permission already added"@,
            CmdError::AlreadyAssigned => "User has already the role"@,
            CmdError::NotAssigned => "User doesn't have the role"@,
            CmdError::PermissionDenied => "You don't have enough permission"@,
        }
    }

    /// The short human-readable reason returned to clients.
    pub fn reason(&self) -> (r: String)
        ensures
            r@ == self.reason_view(),
    {
        match self {
            CmdError::NotFound => "Not found".to_owned(),
            CmdError::NotRegistered => "User is not registered".to_owned(),
            CmdError::InvalidName => "Name isn't valid".to_owned(),
            CmdError::NameTaken => "Name not available".to_owned(),
            CmdError::InvalidMessage => "Message content isn't valid".to_owned(),
            CmdError::AlreadyFriends => "Already a friend".to_owned(),
            CmdError::AlreadyRequested => "Already requested friendship".to_owned(),
            CmdError::NotRequested => "Friendship wasn't requested".to_owned(),
            CmdError::AlreadyMember => "Already a member".to_owned(),
            CmdError::NotMember => "Not a member".to_owned(),
            CmdError::NotOwner => "Only the owner is allowed to do this".to_owned(),
            CmdError::OwnerMustTransferFirst => "The owner needs to transfer the ownership first".to_owned(),
            CmdError::DuplicatePermission => "Permission already added".to_owned(),
            CmdError::AlreadyAssigned => "User has already the role".to_owned(),
            CmdError::NotAssigned => "User doesn't have the role".to_owned(),
            CmdError::PermissionDenied => "You don't have enough permission".to_owned(),
        }
    }
}

} // verus!
