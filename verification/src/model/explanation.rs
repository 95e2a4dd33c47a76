//! Why a resource is on the system, as text.
use vstd::prelude::*;

use crate::model::resource::{label_of, Resource};
use crate::model::root_policy::string_views;

verus! {

/// The lines `  - <item>` for each item, in order.
pub open spec fn bullet_lines(items: Seq<Seq<char>>) -> Seq<char>
    decreases items.len(),
{
    if items.len() == 0 {
        Seq::<char>::empty()
    } else {
        bullet_lines(items.drop_last()) + "  - "@ + items.last() + "\n"@
    }
}

/// A titled list: the title line and one bullet line per item; nothing for
/// an empty list.
pub open spec fn titled_list(title: Seq<char>, items: Seq<Seq<char>>) -> Seq<char> {
    if items.len() == 0 {
        Seq::<char>::empty()
    } else {
        title + "\n"@ + bullet_lines(items)
    }
}

/// Why a resource exists: who owns, uses and requires it, what it depends
/// on, where it came from and its status.
#[derive(Debug)]
pub struct Explanation {
    pub resource: Resource,
    pub owned_by: Vec<String>,
    pub used_by: Vec<String>,
    pub required_by: Vec<String>,
    pub depends_on: Vec<String>,
    pub source: Option<String>,
    pub status: String,
}

impl Explanation {
    /// The text of the explanation: the resource's label, then the
    /// non-empty lists of owners, users, requirers and dependencies, the
    /// source when known, and the status.
    pub open spec fn text(&self) -> Seq<char> {
        label_of(self.resource.display_name, self.resource.native_id) + "\n"@ + titled_list(
            "Owned by:"@,
            string_views(self.owned_by@),
        ) + titled_list("Used by:"@, string_views(self.used_by@)) + titled_list(
            "Required by:"@,
            string_views(self.required_by@),
        ) + titled_list("Depends on:"@, string_views(self.depends_on@)) + match self.source {
            Some(s) => "Source: "@ + s@ + "\n"@,
            None => Seq::<char>::empty(),
        } + "Status: "@ + self.status@ + "\n"@
    }

    /// Format the explanation for display.
    pub fn format(&self) -> (s: String)
        ensures
            s@ == self.text(),
    {
        let mut output = String::from_str(self.resource.label());
        output.append("\n");
        append_list(&mut output, "Owned by:", &self.owned_by);
        append_list(&mut output, "Used by:", &self.used_by);
        append_list(&mut output, "Required by:", &self.required_by);
        append_list(&mut output, "Depends on:", &self.depends_on);
        match &self.source {
            Some(source) => {
                output.append("Source: ");
                output.append(source.as_str());
                output.append("\n");
            },
            None => {},
        }
        output.append("Status: ");
        output.append(self.status.as_str());
        output.append("\n");
        output
    }
}

/// Append a titled list of items.
fn append_list(out: &mut String, title: &str, items: &Vec<String>)
    ensures
        final(out)@ == old(out)@ + titled_list(title@, string_views(items@)),
{
    if items.len() == 0 {
        assert(old(out)@ + titled_list(title@, string_views(items@)) =~= old(out)@);
        return;
    }
    let ghost start = out@;
    let ghost iv = string_views(items@);
    out.append(title);
    out.append("\n");
    let ghost head = out@;
    let mut k: usize = 0;
    while k < items.len()
        invariant
            k <= items.len(),
            iv == string_views(items@),
            out@ == head + bullet_lines(iv.take(k as int)),
        decreases items.len() - k,
    {
        out.append("  - ");
        out.append(items[k].as_str());
        out.append("\n");
        let ghost t = iv.take(k + 1);
        assert(t.drop_last() =~= iv.take(k as int));
        k = k + 1;
        assert(out@ =~= head + bullet_lines(iv.take(k as int)));
    }
    assert(iv.take(items.len() as int) =~= iv);
    assert(out@ =~= start + titled_list(title@, iv));
}

} // verus!
