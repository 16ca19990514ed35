//! What can go wrong in a run, by the kind of failure.

use crate::text::{decimal_digits, decimal_text, join};
use vstd::prelude::*;
use vstd::string::*;

verus! {

/// A list of texts as the sequence of their characters.
pub open spec fn texts_view(texts: Seq<String>) -> Seq<Seq<char>> {
    texts.map_values(|t: String| t@)
}

/// A failure as a mathematical value.
pub enum DnsErrorView {
    Lookup,
    Provider { status: u16, errors: Seq<Seq<char>> },
    ZoneNotFound { name: Seq<char> },
    RecordNotFound { name: Seq<char> },
    NoMatch { prefix: Seq<char> },
    ConfigMissing,
    ConfigCorrupt,
    ConfigExists,
}

/// A failure of one operation.
#[derive(Debug, PartialEq, Eq)]
pub enum DnsError {
    /// The public address could not be looked up, or what came back is no
    /// well-formed address.
    Lookup,
    /// The provider rejected a request: the HTTP status and the errors it
    /// reported.
    Provider { status: u16, errors: Vec<String> },
    /// No tracked zone is the parent of the given name.
    ZoneNotFound { name: String },
    /// The zone tracks no record of the given name.
    RecordNotFound { name: String },
    /// No tracked record matches the given prefix.
    NoMatch { prefix: String },
    /// No tracked state is stored yet.
    ConfigMissing,
    /// What is stored cannot be read as a tracked state.
    ConfigCorrupt,
    /// A tracked state is stored already where a new one was to be made.
    ConfigExists,
}

impl View for DnsError {
    type V = DnsErrorView;

    open spec fn view(&self) -> DnsErrorView {
        match self {
            DnsError::Lookup => DnsErrorView::Lookup,
            DnsError::Provider { status, errors } => DnsErrorView::Provider {
                status: *status,
                errors: texts_view(errors@),
            },
            DnsError::ZoneNotFound { name } => DnsErrorView::ZoneNotFound { name: name@ },
            DnsError::RecordNotFound { name } => DnsErrorView::RecordNotFound { name: name@ },
            DnsError::NoMatch { prefix } => DnsErrorView::NoMatch { prefix: prefix@ },
            DnsError::ConfigMissing => DnsErrorView::ConfigMissing,
            DnsError::ConfigCorrupt => DnsErrorView::ConfigCorrupt,
            DnsError::ConfigExists => DnsErrorView::ConfigExists,
        }
    }
}

/// `texts` one after the other, with `, ` between them.
pub open spec fn listed(texts: Seq<Seq<char>>) -> Seq<char>
    decreases texts.len(),
{
    if texts.len() == 0 {
        Seq::<char>::empty()
    } else if texts.len() == 1 {
        texts[0]
    } else {
        listed(texts.drop_last()) + ", "@ + texts.last()
    }
}

/// What the user is told of a failure.
pub open spec fn message_of(error: DnsErrorView) -> Seq<char> {
    match error {
        DnsErrorView::Lookup => "Could not get a valid IP"@,
        DnsErrorView::Provider { status, errors } => "The provider rejected the request (status "@
            + decimal_digits(status as nat) + "): "@ + listed(errors),
        DnsErrorView::ZoneNotFound { name } => "Domain not found for "@ + name,
        DnsErrorView::RecordNotFound { name } => "Record "@ + name
            + " not found, maybe you want to run `import` first?"@,
        DnsErrorView::NoMatch { prefix } => "No domain found with prefix: "@ + prefix,
        DnsErrorView::ConfigMissing => "No config file found, maybe run the `init` command first?"@,
        DnsErrorView::ConfigCorrupt => "Failed to parse your config, please validate it"@,
        DnsErrorView::ConfigExists => "Config file already exists, delete file to continue"@,
    }
}

impl Clone for DnsError {
    fn clone(&self) -> (copy: Self)
        ensures
            copy@ == self@,
    {
        match self {
            DnsError::Lookup => DnsError::Lookup,
            DnsError::Provider { status, errors } => DnsError::Provider {
                status: *status,
                errors: clone_texts(errors),
            },
            DnsError::ZoneNotFound { name } => DnsError::ZoneNotFound { name: name.clone() },
            DnsError::RecordNotFound { name } => DnsError::RecordNotFound { name: name.clone() },
            DnsError::NoMatch { prefix } => DnsError::NoMatch { prefix: prefix.clone() },
            DnsError::ConfigMissing => DnsError::ConfigMissing,
            DnsError::ConfigCorrupt => DnsError::ConfigCorrupt,
            DnsError::ConfigExists => DnsError::ConfigExists,
        }
    }
}

impl DnsError {
    /// What the user is told of the failure.
    pub fn message(&self) -> (text: String)
        ensures
            text@ == message_of(self@),
    {
        match self {
            DnsError::Lookup => "Could not get a valid IP".to_owned(),
            DnsError::Provider { status, errors } => {
                let mut text = "The provider rejected the request (status ".to_owned();
                text.append(decimal_text(*status).as_str());
                text.append("): ");
                let mut k: usize = 0;
                let ghost head = text@;
                let ghost all = texts_view(errors@);
                assert(all.subrange(0, 0) =~= Seq::<Seq<char>>::empty());
                while k < errors.len()
                    invariant
                        k <= errors.len(),
                        all == texts_view(errors@),
                        text@ == head + listed(all.subrange(0, k as int)),
                    decreases errors.len() - k,
                {
                    proof {
                        let upto = all.subrange(0, k + 1);
                        assert(upto.drop_last() =~= all.subrange(0, k as int));
                        assert(upto.last() == errors@[k as int]@);
                        if k == 0 {
                            assert(listed(all.subrange(0, 0)) =~= Seq::<char>::empty());
                        }
                    }
                    if k > 0 {
                        text.append(", ");
                    }
                    text.append(errors[k].as_str());
                    proof {
                        let upto = all.subrange(0, k + 1);
                        assert(text@ =~= head + listed(upto));
                    }
                    k = k + 1;
                }
                assert(all.subrange(0, k as int) =~= all);
                text
            },
            DnsError::ZoneNotFound { name } => join("Domain not found for ", name.as_str()),
            DnsError::RecordNotFound { name } => {
                let mut text = join("Record ", name.as_str());
                text.append(" not found, maybe you want to run `import` first?");
                text
            },
            DnsError::NoMatch { prefix } => join("No domain found with prefix: ", prefix.as_str()),
            DnsError::ConfigMissing => {
                "No config file found, maybe run the `init` command first?".to_owned()
            },
            DnsError::ConfigCorrupt => "Failed to parse your config, please validate it".to_owned(),
            DnsError::ConfigExists => {
                "Config file already exists, delete file to continue".to_owned()
            },
        }
    }
}

/// A copy of `texts`.
pub fn clone_texts(texts: &Vec<String>) -> (copy: Vec<String>)
    ensures
        texts_view(copy@) == texts_view(texts@),
{
    let copy = texts.clone();
    assert(texts_view(copy@) =~= texts_view(texts@));
    copy
}

} // verus!
