//! The error taxonomy: conversion and codec errors (`DxrError`),
//! protocol-level faults (`Fault`), and the client-side error type that
//! keeps every kind distinguishable.

use vstd::prelude::*;

verus! {

/// A conversion or codec error. Never silently defaulted: each kind
/// names exactly one failure of the taxonomy.
#[derive(Debug, PartialEq)]
pub enum DxrError {
    /// Malformed wire text: bad XML, an unknown type tag, or a malformed
    /// numeric, date or base64 body.
    InvalidData { error: String },
    /// An expected struct member was absent.
    MissingField { name: String },
    /// An argument list whose length does not match the target arity.
    ParameterMismatch { argument: usize, expected: usize },
    /// A value whose variant does not match the requested native type.
    WrongType { argument: String, expected: String },
}

impl DxrError {
    /// A short text for diagnostics; the kind stays in the variant.
    pub fn describe(&self) -> (r: String)
        ensures
            true,
    {
        match self {
            DxrError::InvalidData { error } => error.clone(),
            DxrError::MissingField { name } => name.clone(),
            DxrError::ParameterMismatch { .. } => String::from_str("parameter count mismatch"),
            DxrError::WrongType { expected, .. } => expected.clone(),
        }
    }
}

/// A protocol-level failure returned in place of a value: a numeric
/// code and a message, carried verbatim.
#[derive(Debug, PartialEq)]
pub struct Fault {
    /// The numeric fault code.
    pub code: i32,
    /// The fault message.
    pub message: String,
}

impl Fault {
    /// Builds a fault from its code and message.
    pub fn new(code: i32, message: String) -> (r: Fault)
        ensures
            r.code == code,
            r.message@ == message@,
    {
        Fault { code, message }
    }
}

/// What a client call can fail with. Every kind of the taxonomy stays
/// distinguishable, since callers handle them differently.
#[derive(Debug, PartialEq)]
pub enum Error {
    /// The remote side answered with a fault document.
    Fault(Fault),
    /// The response converted wrongly or was malformed (`DxrError`).
    RPC(DxrError),
    /// The transport collaborator failed; passed through verbatim.
    Transport(String),
}

impl Error {
    /// True exactly of a server fault.
    pub fn is_server_fault(&self) -> (r: bool)
        ensures
            r == (self is Fault),
    {
        match self {
            Error::Fault(_) => true,
            _ => false,
        }
    }

    /// True exactly of a wrong-type conversion error.
    pub fn is_wrong_type(&self) -> (r: bool)
        ensures
            r == (self matches Error::RPC(e) && e is WrongType),
    {
        match self {
            Error::RPC(e) => match e {
                DxrError::WrongType { .. } => true,
                _ => false,
            },
            _ => false,
        }
    }

    /// True exactly of a parameter-count mismatch.
    pub fn is_parameter_mismatch(&self) -> (r: bool)
        ensures
            r == (self matches Error::RPC(e) && e is ParameterMismatch),
    {
        match self {
            Error::RPC(e) => match e {
                DxrError::ParameterMismatch { .. } => true,
                _ => false,
            },
            _ => false,
        }
    }

    /// True exactly of a transport failure.
    pub fn is_transport(&self) -> (r: bool)
        ensures
            r == (self is Transport),
    {
        match self {
            Error::Transport(_) => true,
            _ => false,
        }
    }

    /// The fault carried by a server-fault error.
    pub fn fault(&self) -> (r: Option<&Fault>)
        ensures
            match r {
                Some(f) => self == Error::Fault(*f),
                None => !(self is Fault),
            },
    {
        match self {
            Error::Fault(f) => Some(f),
            _ => None,
        }
    }
}

} // verus!
