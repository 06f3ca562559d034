//! The messages of the server API: what each endpoint answers, and the
//! errors it can refuse a request with.
use vstd::prelude::*;

use crate::model::FileMetadata;

verus! {

/// A value and the signature of its author.
#[derive(Clone, Debug, PartialEq)]
pub struct SignedValue {
    pub content: String,
    pub signature: String,
}

#[derive(Clone, Copy, Debug, PartialEq, Eq, Structural)]
pub struct ChangeDocumentContentResponse {
    pub new_metadata_and_content_version: u64,
}

#[derive(Clone, Copy, Debug, PartialEq, Eq, Structural)]
pub enum ChangeDocumentContentError {
    InternalError,
    InvalidAuth,
    InvalidUsername,
    ExpiredAuth,
    NotPermissioned,
    UserNotFound,
    DocumentNotFound,
    EditConflict,
    DocumentDeleted,
}

#[derive(Clone, Copy, Debug, PartialEq, Eq, Structural)]
pub struct CreateDocumentResponse {
    pub new_metadata_and_content_version: u64,
}

#[derive(Clone, Copy, Debug, PartialEq, Eq, Structural)]
pub enum CreateDocumentError {
    InternalError,
    InvalidAuth,
    InvalidUsername,
    ExpiredAuth,
    NotPermissioned,
    UserNotFound,
    FileIdTaken,
    DocumentPathTaken,
}

#[derive(Clone, Debug, PartialEq)]
pub struct DeleteDocumentRequest {
    pub username: String,
    pub signature: SignedValue,
    pub id: u128,
    pub old_metadata_version: u64,
}

#[derive(Clone, Copy, Debug, PartialEq, Eq, Structural)]
pub struct DeleteDocumentResponse {
    pub new_metadata_and_content_version: u64,
}

#[derive(Clone, Copy, Debug, PartialEq, Eq, Structural)]
pub enum DeleteDocumentError {
    InternalError,
    InvalidAuth,
    InvalidUsername,
    ExpiredAuth,
    NotPermissioned,
    UserNotFound,
    DocumentNotFound,
    EditConflict,
    DocumentDeleted,
}

#[derive(Clone, Debug, PartialEq)]
pub struct MoveDocumentRequest {
    pub username: String,
    pub signature: SignedValue,
    pub id: u128,
    pub old_metadata_version: u64,
    pub new_parent: u128,
}

#[derive(Clone, Copy, Debug, PartialEq, Eq, Structural)]
pub struct MoveDocumentResponse {
    pub new_metadata_version: u64,
}

#[derive(Clone, Copy, Debug, PartialEq, Eq, Structural)]
pub enum MoveDocumentError {
    InternalError,
    InvalidAuth,
    InvalidUsername,
    ExpiredAuth,
    NotPermissioned,
    UserNotFound,
    DocumentNotFound,
    EditConflict,
    DocumentDeleted,
    DocumentPathTaken,
}

#[derive(Clone, Debug, PartialEq)]
pub struct RenameDocumentRequest {
    pub username: String,
    pub signature: SignedValue,
    pub id: u128,
    pub old_metadata_version: u64,
    pub new_name: String,
}

#[derive(Clone, Copy, Debug, PartialEq, Eq, Structural)]
pub struct RenameDocumentResponse {
    pub new_metadata_version: u64,
}

#[derive(Clone, Copy, Debug, PartialEq, Eq, Structural)]
pub enum RenameDocumentError {
    InternalError,
    InvalidAuth,
    InvalidUsername,
    ExpiredAuth,
    NotPermissioned,
    UserNotFound,
    DocumentNotFound,
    DocumentDeleted,
    EditConflict,
    DocumentPathTaken,
}

#[derive(Clone, Copy, Debug, PartialEq, Eq, Structural)]
pub struct CreateFolderResponse {
    pub new_metadata_version: u64,
}

#[derive(Clone, Copy, Debug, PartialEq, Eq, Structural)]
pub enum CreateFolderError {
    InternalError,
    InvalidAuth,
    InvalidUsername,
    ExpiredAuth,
    NotPermissioned,
    UserNotFound,
    FileIdTaken,
    FolderPathTaken,
}

#[derive(Clone, Debug, PartialEq)]
pub struct DeleteFolderRequest {
    pub username: String,
    pub signature: SignedValue,
    pub id: u128,
    pub old_metadata_version: u64,
}

#[derive(Clone, Copy, Debug, PartialEq, Eq, Structural)]
pub struct DeleteFolderResponse {
    pub new_metadata_version: u64,
}

#[derive(Clone, Copy, Debug, PartialEq, Eq, Structural)]
pub enum DeleteFolderError {
    InternalError,
    InvalidAuth,
    InvalidUsername,
    ExpiredAuth,
    NotPermissioned,
    UserNotFound,
    FolderNotFound,
    EditConflict,
    FolderDeleted,
}

#[derive(Clone, Debug, PartialEq)]
pub struct MoveFolderRequest {
    pub username: String,
    pub signature: SignedValue,
    pub id: u128,
    pub old_metadata_version: u64,
    pub new_parent: u128,
}

#[derive(Clone, Copy, Debug, PartialEq, Eq, Structural)]
pub struct MoveFolderResponse {
    pub new_metadata_version: u64,
}

#[derive(Clone, Copy, Debug, PartialEq, Eq, Structural)]
pub enum MoveFolderError {
    InternalError,
    InvalidAuth,
    InvalidUsername,
    ExpiredAuth,
    NotPermissioned,
    UserNotFound,
    FolderNotFound,
    EditConflict,
    FolderDeleted,
    FolderPathTaken,
}

#[derive(Clone, Debug, PartialEq)]
pub struct RenameFolderRequest {
    pub username: String,
    pub signature: SignedValue,
    pub id: u128,
    pub old_metadata_version: u64,
    pub new_name: String,
}

#[derive(Clone, Copy, Debug, PartialEq, Eq, Structural)]
pub struct RenameFolderResponse {
    pub new_metadata_version: u64,
}

#[derive(Clone, Copy, Debug, PartialEq, Eq, Structural)]
pub enum RenameFolderError {
    InternalError,
    InvalidAuth,
    InvalidUsername,
    ExpiredAuth,
    NotPermissioned,
    UserNotFound,
    FolderNotFound,
    FolderDeleted,
    EditConflict,
    FolderPathTaken,
}

#[derive(Clone, Copy, Debug, PartialEq, Eq, Structural)]
pub struct NewAccountResponse {
    pub folder_metadata_version: u64,
}

#[derive(Clone, Copy, Debug, PartialEq, Eq, Structural)]
pub enum NewAccountError {
    InternalError,
    InvalidAuth,
    ExpiredAuth,
    UsernameTaken,
    InvalidPublicKey,
    InvalidUserAccessKey,
    InvalidUsername,
    FileIdTaken,
}

#[derive(Clone, Debug, PartialEq)]
pub struct GetPublicKeyRequest {
    pub username: String,
}

#[derive(Clone, Copy, Debug, PartialEq, Eq, Structural)]
pub enum GetPublicKeyError {
    InternalError,
    InvalidUsername,
    UserNotFound,
}

#[derive(Clone, Debug, PartialEq)]
pub struct GetUpdatesRequest {
    pub username: String,
    pub signature: SignedValue,
    pub since_metadata_version: u64,
}

#[derive(Clone, Debug, PartialEq)]
pub struct GetUpdatesResponse {
    pub file_metadata: Vec<FileMetadata>,
}

#[derive(Clone, Copy, Debug, PartialEq, Eq, Structural)]
pub enum GetUpdatesError {
    InternalError,
    InvalidAuth,
    ExpiredAuth,
    NotPermissioned,
    UserNotFound,
    InvalidUsername,
}

} // verus!
