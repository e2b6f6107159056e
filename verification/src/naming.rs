use vstd::prelude::*;

use crate::side::{side_label, side_text, Side};
use crate::text::{decimal, push_decimal, same_text};

verus! {

/// The page name of a squad, such as `A_Squad_3`.
pub open spec fn squad_name(squad_id: nat, side: Side) -> Seq<char> {
    side_text(side) + "_Squad_"@ + decimal(squad_id)
}

/// The colour in which a squad's name is printed in journal pages.
pub open spec fn link_color_text(side: Side) -> Seq<char> {
    match side {
        Side::A => "#4b8bdf"@,
        Side::B => "#df4b4b"@,
        Side::All => "gray"@,
    }
}

/// A coloured wiki link to a squad's page.
pub open spec fn squad_link(squad_id: nat, side: Side) -> Seq<char> {
    "<span style=\"color:"@ + link_color_text(side) + "\">[["@ + squad_name(squad_id, side)
        + "]]</span>"@
}

/// The colour of a squad's node on a canvas; `None` is a squad of unknown camp.
pub open spec fn node_color_text(side: Option<Side>) -> Seq<char> {
    match side {
        Some(Side::A) => "4b8bdf"@,
        Some(Side::B) => "df4b4b"@,
        _ => "888888"@,
    }
}

/// The colour of a support request node, by its urgency.
pub open spec fn urgency_color_text(urgency: Seq<char>) -> Seq<char> {
    if urgency == "Critical"@ {
        "e74c3c"@
    } else if urgency == "High"@ {
        "e67e22"@
    } else if urgency == "Medium"@ {
        "f1c40f"@
    } else if urgency == "Low"@ {
        "2ecc71"@
    } else {
        "888888"@
    }
}

/// How a place is described: indoors or outdoors.
pub open spec fn environment_text(is_indoor: bool) -> Seq<char> {
    if is_indoor {
        "실내"@
    } else {
        "실외"@
    }
}

/// The page name of a squad.
pub fn format_squad(squad_id: usize, side: Side) -> (name: String)
    ensures
        name@ == squad_name(squad_id as nat, side),
{
    let mut name = String::new();
    name.append(side_label(side));
    name.append("_Squad_");
    push_decimal(&mut name, squad_id as u64);
    assert(name@ =~= squad_name(squad_id as nat, side));
    name
}

/// The colour in which a squad's name is printed.
pub fn link_color(side: Side) -> (color: &'static str)
    ensures
        color@ == link_color_text(side),
{
    match side {
        Side::A => "#4b8bdf",
        Side::B => "#df4b4b",
        Side::All => "gray",
    }
}

/// A coloured wiki link to a squad's page.
pub fn format_squad_link(squad_id: usize, side: Side) -> (link: String)
    ensures
        link@ == squad_link(squad_id as nat, side),
{
    let mut link = String::new();
    link.append("<span style=\"color:");
    link.append(link_color(side));
    link.append("\">[[");
    let name = format_squad(squad_id, side);
    link.append(name.as_str());
    link.append("]]</span>");
    assert(link@ =~= squad_link(squad_id as nat, side));
    link
}

/// The colour of a squad's canvas node.
pub fn node_color(side: Option<Side>) -> (color: &'static str)
    ensures
        color@ == node_color_text(side),
{
    match side {
        Some(Side::A) => "4b8bdf",
        Some(Side::B) => "df4b4b",
        _ => "888888",
    }
}

/// The colour of a support request node.
pub fn urgency_color(urgency: &str) -> (color: &'static str)
    ensures
        color@ == urgency_color_text(urgency@),
{
    if same_text(urgency, "Critical") {
        "e74c3c"
    } else if same_text(urgency, "High") {
        "e67e22"
    } else if same_text(urgency, "Medium") {
        "f1c40f"
    } else if same_text(urgency, "Low") {
        "2ecc71"
    } else {
        "888888"
    }
}

/// Indoors or outdoors, as printed.
pub fn environment_label(is_indoor: bool) -> (label: &'static str)
    ensures
        label@ == environment_text(is_indoor),
{
    if is_indoor {
        "실내"
    } else {
        "실외"
    }
}

} // verus!
