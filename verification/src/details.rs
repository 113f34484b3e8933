//! The metadata record kept beside each title's archives.

use crate::json::{append_json_array, append_json_string, spec_details_json, spec_details_json_bytes};
use vstd::prelude::*;

verus! {

/// Mathematical image of a [`Details`] record: every field as a sequence.
#[verifier::ext_equal]
pub ghost struct DetailsView {
    pub title: Seq<char>,
    pub author: Seq<char>,
    pub artist: Seq<char>,
    pub description: Seq<char>,
    pub genre: Seq<Seq<char>>,
    pub status: Seq<char>,
    pub status_values: Seq<Seq<char>>,
}

/// Structured description of a title: descriptive text, a genre list, a
/// numeric-string status code, and the fixed legend of status codes.
pub struct Details {
    title: String,
    author: String,
    artist: String,
    description: String,
    genre: Vec<String>,
    status: String,
    status_values: Vec<String>,
}

impl View for Details {
    type V = DetailsView;

    closed spec fn view(&self) -> DetailsView {
        DetailsView {
            title: self.title@,
            author: self.author@,
            artist: self.artist@,
            description: self.description@,
            genre: self.genre.deep_view(),
            status: self.status@,
            status_values: self.status_values.deep_view(),
        }
    }
}

/// The status code a record carries when nothing is known of the title.
pub open spec fn spec_unknown_status() -> Seq<char> {
    "0"@
}

/// The fixed legend mapping each status code to its meaning.
pub open spec fn spec_status_legend() -> Seq<Seq<char>> {
    seq![
        "0 = Unknown"@,
        "1 = Ongoing"@,
        "2 = Completed"@,
        "3 = Licensed"@,
        "4 = Publishing finished"@,
        "5 = Cancelled"@,
        "6 = On hiatus"@,
    ]
}

/// The record every field of which is empty but for the default status
/// code and the fixed legend.
pub open spec fn spec_default_details() -> DetailsView {
    DetailsView {
        title: Seq::empty(),
        author: Seq::empty(),
        artist: Seq::empty(),
        description: Seq::empty(),
        genre: Seq::empty(),
        status: spec_unknown_status(),
        status_values: spec_status_legend(),
    }
}

/// The record synthesized for a title that has no metadata of its own:
/// only the title is filled in.
pub open spec fn spec_barebone_details(title: Seq<char>) -> DetailsView {
    DetailsView { title, ..spec_default_details() }
}

impl Details {
    /// Builds a record from every field.
    pub fn new(
        title: String,
        author: String,
        artist: String,
        description: String,
        genre: Vec<String>,
        status: String,
        status_values: Vec<String>,
    ) -> (r: Details)
        ensures
            r@ == (DetailsView {
                title: title@,
                author: author@,
                artist: artist@,
                description: description@,
                genre: genre.deep_view(),
                status: status@,
                status_values: status_values.deep_view(),
            }),
    {
        Details { title, author, artist, description, genre, status, status_values }
    }

    /// Builds the record synthesized for a title without metadata: only the
    /// title is set; the status code reads "unknown".
    pub fn barebone(title: String) -> (r: Details)
        ensures
            r@ == spec_barebone_details(title@),
    {
        let mut r = Details::default();
        r.title = title;
        proof {
            assert(r@ =~= spec_barebone_details(title@));
        }
        r
    }

    /// Renders the record as its JSON document.
    pub fn to_json(&self) -> (r: String)
        ensures
            r@ == spec_details_json(self@),
    {
        let mut out = String::from_str("{\n  \"title\": ");
        append_json_string(&mut out, self.title.as_str());
        out.append(",\n  \"author\": ");
        append_json_string(&mut out, self.author.as_str());
        out.append(",\n  \"artist\": ");
        append_json_string(&mut out, self.artist.as_str());
        out.append(",\n  \"description\": ");
        append_json_string(&mut out, self.description.as_str());
        out.append(",\n  \"genre\": ");
        append_json_array(&mut out, &self.genre);
        out.append(",\n  \"status\": ");
        append_json_string(&mut out, self.status.as_str());
        out.append(",\n  \"_status values\": ");
        append_json_array(&mut out, &self.status_values);
        out.append("\n}");
        proof {
            assert(out@ =~= spec_details_json(self@));
        }
        out
    }

    /// Renders the record as the bytes written to its sidecar file.
    pub fn to_json_bytes(&self) -> (r: Vec<u8>)
        ensures
            r@ == spec_details_json_bytes(self@),
    {
        let s = self.to_json();
        s.as_str().as_bytes_vec()
    }
}

impl Default for Details {
    /// The empty record: blank text fields, the default status code, the
    /// fixed status legend.
    fn default() -> (r: Details)
        ensures
            r@ == spec_default_details(),
    {
        let mut status_values: Vec<String> = Vec::new();
        status_values.push(String::from_str("0 = Unknown"));
        status_values.push(String::from_str("1 = Ongoing"));
        status_values.push(String::from_str("2 = Completed"));
        status_values.push(String::from_str("3 = Licensed"));
        status_values.push(String::from_str("4 = Publishing finished"));
        status_values.push(String::from_str("5 = Cancelled"));
        status_values.push(String::from_str("6 = On hiatus"));
        let r = Details {
            title: String::new(),
            author: String::new(),
            artist: String::new(),
            description: String::new(),
            genre: Vec::new(),
            status: String::from_str("0"),
            status_values,
        };
        proof {
            assert(r@.status_values =~= spec_status_legend());
            assert(r@ =~= spec_default_details());
        }
        r
    }
}

} // verus!
