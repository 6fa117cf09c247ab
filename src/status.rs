use vstd::prelude::*;

verus! {

/// The opaque status code that crosses the privilege boundary.
#[derive(Clone, Copy, Debug, PartialEq, Eq, Structural)]
pub enum ServiceOperationResult {
    Success,
    CannotIdentifyUser,
    SessionAlreadyOpened,
    SessionAlreadyClosed,
    DataDecryptionFailed,
    EncryptionError,
    CannotLoadUserMountError,
    UnauthorizedMount,
    MountError,
}

/// The numeric value of each status on the wire.
pub open spec fn status_code(s: ServiceOperationResult) -> u32 {
    match s {
        ServiceOperationResult::Success => 0,
        ServiceOperationResult::CannotIdentifyUser => 1,
        ServiceOperationResult::SessionAlreadyOpened => 2,
        ServiceOperationResult::SessionAlreadyClosed => 3,
        ServiceOperationResult::DataDecryptionFailed => 4,
        ServiceOperationResult::EncryptionError => 5,
        ServiceOperationResult::CannotLoadUserMountError => 6,
        ServiceOperationResult::UnauthorizedMount => 7,
        ServiceOperationResult::MountError => 8,
    }
}

impl ServiceOperationResult {
    pub fn code(self) -> (r: u32)
        ensures
            r == status_code(self),
    {
        match self {
            ServiceOperationResult::Success => 0,
            ServiceOperationResult::CannotIdentifyUser => 1,
            ServiceOperationResult::SessionAlreadyOpened => 2,
            ServiceOperationResult::SessionAlreadyClosed => 3,
            ServiceOperationResult::DataDecryptionFailed => 4,
            ServiceOperationResult::EncryptionError => 5,
            ServiceOperationResult::CannotLoadUserMountError => 6,
            ServiceOperationResult::UnauthorizedMount => 7,
            ServiceOperationResult::MountError => 8,
        }
    }

    /// The status a wire code stands for, if any.
    pub fn from_code(code: u32) -> (r: Option<ServiceOperationResult>)
        ensures
            r matches Some(s) ==> status_code(s) == code,
            r is None <==> code > 8,
    {
        match code {
            0 => Some(ServiceOperationResult::Success),
            1 => Some(ServiceOperationResult::CannotIdentifyUser),
            2 => Some(ServiceOperationResult::SessionAlreadyOpened),
            3 => Some(ServiceOperationResult::SessionAlreadyClosed),
            4 => Some(ServiceOperationResult::DataDecryptionFailed),
            5 => Some(ServiceOperationResult::EncryptionError),
            6 => Some(ServiceOperationResult::CannotLoadUserMountError),
            7 => Some(ServiceOperationResult::UnauthorizedMount),
            8 => Some(ServiceOperationResult::MountError),
            _ => None,
        }
    }
}

/// Which of a session's two states a request found it in when it wanted the other.
#[derive(Clone, Copy, Debug, PartialEq, Eq, Structural)]
pub enum StateError {
    AlreadyOpened,
    AlreadyClosed,
}

/// Why a handshake could not be completed.
#[derive(Clone, Copy, Debug, PartialEq, Eq, Structural)]
pub enum CryptoError {
    /// The ciphertext could not be decrypted, or its plaintext is not a token and a secret.
    Decryption,
    /// The token was never issued, was already consumed, or does not match what was stored.
    ReplayOrUnknownToken,
}

/// The failures of the broker's operations, kept on the privileged side.
#[derive(Clone, Copy, Debug, PartialEq, Eq, Structural)]
pub enum BrokerError {
    Identity,
    State(StateError),
    Crypto(CryptoError),
    Config,
    Authorization,
    Mount,
    Persistence,
}

/// The status code an error is reported as. A failed write of the
/// authorization table is reported as an identity failure, as the table
/// holds no other code for it.
pub open spec fn error_status(e: BrokerError) -> ServiceOperationResult {
    match e {
        BrokerError::Identity => ServiceOperationResult::CannotIdentifyUser,
        BrokerError::State(StateError::AlreadyOpened) => ServiceOperationResult::SessionAlreadyOpened,
        BrokerError::State(StateError::AlreadyClosed) => ServiceOperationResult::SessionAlreadyClosed,
        BrokerError::Crypto(CryptoError::Decryption) => ServiceOperationResult::DataDecryptionFailed,
        BrokerError::Crypto(CryptoError::ReplayOrUnknownToken) => ServiceOperationResult::EncryptionError,
        BrokerError::Config => ServiceOperationResult::CannotLoadUserMountError,
        BrokerError::Authorization => ServiceOperationResult::UnauthorizedMount,
        BrokerError::Mount => ServiceOperationResult::MountError,
        BrokerError::Persistence => ServiceOperationResult::CannotIdentifyUser,
    }
}

impl BrokerError {
    pub fn status(self) -> (r: ServiceOperationResult)
        ensures
            r == error_status(self),
    {
        match self {
            BrokerError::Identity => ServiceOperationResult::CannotIdentifyUser,
            BrokerError::State(StateError::AlreadyOpened) => ServiceOperationResult::SessionAlreadyOpened,
            BrokerError::State(StateError::AlreadyClosed) => ServiceOperationResult::SessionAlreadyClosed,
            BrokerError::Crypto(CryptoError::Decryption) => ServiceOperationResult::DataDecryptionFailed,
            BrokerError::Crypto(CryptoError::ReplayOrUnknownToken) => ServiceOperationResult::EncryptionError,
            BrokerError::Config => ServiceOperationResult::CannotLoadUserMountError,
            BrokerError::Authorization => ServiceOperationResult::UnauthorizedMount,
            BrokerError::Mount => ServiceOperationResult::MountError,
            BrokerError::Persistence => ServiceOperationResult::CannotIdentifyUser,
        }
    }
}

/// The status code a result of the broker is reported as.
pub open spec fn outcome_status<T>(r: Result<T, BrokerError>) -> ServiceOperationResult {
    match r {
        Ok(_) => ServiceOperationResult::Success,
        Err(e) => error_status(e),
    }
}

} // verus!
