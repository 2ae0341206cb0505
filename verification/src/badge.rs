//! The status badge: the small JSON-shaped value served to a badge
//! renderer. The probe itself is network work and lives outside the
//! library; what is verified here is the classification of a probe's
//! outcome into a badge.
use vstd::prelude::*;

verus! {

/// A shields-style badge payload.
pub struct StatusBadge {
    pub schema_version: u8,
    pub label: String,
    pub message: String,
    pub color: String,
}

impl StatusBadge {
    /// The badge shown when the state of the site is unknown.
    pub fn unknown() -> (r: StatusBadge)
        ensures
            r.schema_version == 1,
            r.label@ == "status"@,
            r.message@ == "unknown"@,
            r.color@ == "lightgrey"@,
    {
        StatusBadge {
            schema_version: 1,
            label: "status".to_owned(),
            message: "unknown".to_owned(),
            color: "lightgrey".to_owned(),
        }
    }

    /// Classifies a probe's outcome: no response at all reads as
    /// maintenance; a success status (200–299) as up; a server error
    /// (500–599) as degraded; a client error (400–499) as down; anything
    /// else as unknown.
    pub fn from_probe(status: Option<u16>) -> (r: StatusBadge)
        ensures
            r.schema_version == 1,
            r.label@ == "status"@,
            match status {
                None => r.message@ == "maintenance"@ && r.color@ == "blue"@,
                Some(c) => {
                    if 200 <= c < 300 {
                        r.message@ == "up"@ && r.color@ == "brightgreen"@
                    } else if 500 <= c < 600 {
                        r.message@ == "degraded"@ && r.color@ == "yellow"@
                    } else if 400 <= c < 500 {
                        r.message@ == "down"@ && r.color@ == "red"@
                    } else {
                        r.message@ == "unknown"@ && r.color@ == "lightgrey"@
                    }
                },
            },
    {
        match status {
            None => StatusBadge {
                schema_version: 1,
                label: "status".to_owned(),
                message: "maintenance".to_owned(),
                color: "blue".to_owned(),
            },
            Some(c) => {
                if 200 <= c && c < 300 {
                    StatusBadge {
                        schema_version: 1,
                        label: "status".to_owned(),
                        message: "up".to_owned(),
                        color: "brightgreen".to_owned(),
                    }
                } else if 500 <= c && c < 600 {
                    StatusBadge {
                        schema_version: 1,
                        label: "status".to_owned(),
                        message: "degraded".to_owned(),
                        color: "yellow".to_owned(),
                    }
                } else if 400 <= c && c < 500 {
                    StatusBadge {
                        schema_version: 1,
                        label: "status".to_owned(),
                        message: "down".to_owned(),
                        color: "red".to_owned(),
                    }
                } else {
                    StatusBadge::unknown()
                }
            },
        }
    }
}

} // verus!
