//! Persistent storage of typed entries: the entry format, the storage errors, and the storage that
//! keeps nothing.
//!
//! Entries are identified by an 8-byte tag (see [`ENTRY_TAG_SIZE`]). Tags can be parameterized
//! via [`Entry::TagParams`] to support multiple stored instances of the same entry type.
use core::marker::PhantomData;
use vstd::prelude::*;

verus! {

/// The size of the tag used to identify entries in storage.
pub const ENTRY_TAG_SIZE: usize = 8;

/// Trait for types that can be stored in persistent storage.
pub trait Entry: Sized {
    /// The type of the parameter that is passed to the [`tag`](Self::tag) function.
    ///
    /// By setting this to a type that can have different values, multiple instances of the entry
    /// can be stored. If only one instance is ever stored, the type can be `()`.
    type TagParams;

    /// The length of the bytes that this type is serialized to.
    fn size() -> usize;

    /// Creates a unique tag to identify this entry type.
    fn tag(params: Self::TagParams) -> [u8; ENTRY_TAG_SIZE];

    /// Deserializes the entry from the specified bytes; `None` if it can not be deserialized.
    fn from_bytes(bytes: &[u8]) -> Option<Self>;

    /// Serializes this entry.
    fn to_bytes(&self) -> Vec<u8>;
}

/// Error type for storage operations.
#[derive(Debug)]
pub enum Error<E> {
    /// Flash error returned by the underlying flash storage.
    Flash(E),
    /// The storage is full and can not store any more entries.
    FullStorage,
    /// The storage is corrupted and can not be used.
    Corrupted,
    /// The entry is too big to be stored in the storage.
    EntryTooBig,
}

/// The errors of the sequential flash storage that the default storage is built on.
#[derive(Debug)]
pub enum SequentialStorageError<E> {
    /// An error in the flash.
    Storage { value: E },
    /// The item cannot be stored anymore because the storage is full.
    FullStorage,
    /// The memory is likely corrupted.
    Corrupted,
    /// A bug in the storage's own logic.
    LogicBug,
    /// A provided buffer was too big to be used.
    BufferTooBig,
    /// A provided buffer was too small to be used (the size needed).
    BufferTooSmall(usize),
    /// A serialization error of the key or the value.
    SerializationError,
    /// The item does not fit in flash, ever.
    ItemTooBig,
    /// An error that the storage added after these.
    Other,
}

/// Whether the sequential storage error is one that the storage's use of buffers and byte
/// values rules out.
pub open spec fn is_unexpected<E>(error: SequentialStorageError<E>) -> bool {
    match error {
        SequentialStorageError::Storage { .. } => false,
        SequentialStorageError::FullStorage => false,
        SequentialStorageError::Corrupted => false,
        SequentialStorageError::ItemTooBig => false,
        _ => true,
    }
}

/// Whether the sequential storage error is one that the storage's use of buffers and byte
/// values rules out.
pub fn is_unexpected_error<E>(error: &SequentialStorageError<E>) -> (r: bool)
    ensures
        r == is_unexpected(*error),
{
    match error {
        SequentialStorageError::Storage { .. } => false,
        SequentialStorageError::FullStorage => false,
        SequentialStorageError::Corrupted => false,
        SequentialStorageError::ItemTooBig => false,
        _ => true,
    }
}

impl<E> Error<E> {
    /// The storage error for an error of the sequential storage. The buffers are always made with
    /// the right size and the values are plain bytes, so the other errors do not occur.
    pub fn from_sequential_storage(error: SequentialStorageError<E>) -> (r: Self)
        requires
            !is_unexpected(error),
        ensures
            match error {
                SequentialStorageError::Storage { value } => r == Error::Flash(value),
                SequentialStorageError::FullStorage => r == Error::<E>::FullStorage,
                SequentialStorageError::Corrupted => r == Error::<E>::Corrupted,
                _ => r == Error::<E>::EntryTooBig,
            },
    {
        match error {
            SequentialStorageError::Storage { value } => Error::Flash(value),
            SequentialStorageError::FullStorage => Error::FullStorage,
            SequentialStorageError::Corrupted => Error::Corrupted,
            _ => Error::EntryTooBig,
        }
    }
}

/// Trait to create and configure a storage instance for a specific MCU.
pub trait StorageDriver {
    /// The type of the storage created by this driver.
    type Storage;

    /// The type of the MCU that this storage driver is designed for.
    type Mcu;

    /// The configuration type for this storage driver.
    type Config;

    /// Creates a storage instance for the specified MCU and configuration.
    fn create_storage(mcu: &'static Self::Mcu, config: Self::Config) -> Self::Storage;
}

/// The driver of [`EmptyStorage`], for any MCU.
pub struct EmptyStorageDriver<M> {
    phantom: PhantomData<M>,
}

impl<Mcu: 'static> StorageDriver for EmptyStorageDriver<Mcu> {
    type Storage = EmptyStorage;

    type Mcu = Mcu;

    type Config = ();

    fn create_storage(mcu: &'static Self::Mcu, config: Self::Config) -> (r: Self::Storage) {
        EmptyStorage
    }
}

/// A storage that keeps nothing: storing and removing succeed, and nothing is ever found.
pub struct EmptyStorage;

impl EmptyStorage {
    /// Removes an entry: there is none, and that succeeds.
    pub fn remove<E: Entry>(&self, tag_params: E::TagParams) -> (r: Result<(), Error<core::convert::Infallible>>)
        ensures
            r is Ok,
    {
        Ok(())
    }

    /// Stores an entry: it is dropped, and that succeeds.
    pub fn store<E: Entry>(&self, tag_params: E::TagParams, entry: &E) -> (r: Result<
        (),
        Error<core::convert::Infallible>,
    >)
        ensures
            r is Ok,
    {
        Ok(())
    }

    /// Fetches an entry: there is none.
    pub fn fetch<E: Entry>(&self, tag_params: E::TagParams) -> (r: Result<
        Option<E>,
        Error<core::convert::Infallible>,
    >)
        ensures
            r == Ok::<Option<E>, Error<core::convert::Infallible>>(None),
    {
        Ok(None)
    }
}

} // verus!
