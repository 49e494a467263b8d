use vstd::prelude::*;

verus! {

/// A published picture: its record id, the stored image file name and the
/// aspect ratio chosen at upload.
pub struct Post {
    pub id: String,
    pub image: String,
    pub ratio: String,
}

/// The form fields sent along with an uploaded picture.
pub struct UploadForm {
    pub ratio: String,
}

} // verus!
