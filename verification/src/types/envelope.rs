//! The envelope around every reply of the server.

use vstd::prelude::*;

verus! {

/// An error as the server sends it.
#[derive(Debug)]
pub struct ApiError {
    pub message: String,
}

/// A reply that holds one value or an error.
#[derive(Debug)]
pub struct ApiResponse<T> {
    pub data: Option<T>,
    pub error: Option<ApiError>,
}

/// A reply that holds one page of values or an error.
#[derive(Debug)]
pub struct PagedResponse<T> {
    pub data: Option<Vec<T>>,
    pub total: Option<i32>,
    pub page: Option<i32>,
    pub size: Option<i32>,
    pub pages: Option<i32>,
    pub error: Option<ApiError>,
}

} // verus!
