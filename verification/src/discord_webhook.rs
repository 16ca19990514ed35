//! The Discord kind of webhook subscription.

use crate::text::join;
use crate::webhook_notifier::{WebhookCall, WebhookCallView, WebhookNotifier};
use vstd::prelude::*;
use vstd::string::*;

verus! {

/// A Discord webhook as a mathematical value.
pub struct DiscordWebhookView {
    pub url: Seq<char>,
}

/// A Discord channel that is told of every address change.
#[derive(Debug, PartialEq, Eq)]
pub struct DiscordWebhook {
    url: String,
}

impl View for DiscordWebhook {
    type V = DiscordWebhookView;

    closed spec fn view(&self) -> DiscordWebhookView {
        DiscordWebhookView { url: self.url@ }
    }
}

impl Clone for DiscordWebhook {
    fn clone(&self) -> (copy: Self)
        ensures
            copy@ == self@,
    {
        DiscordWebhook { url: self.url.clone() }
    }
}

/// The message that tells of a change of the address from `from` to `to`.
pub open spec fn discord_message(from: Seq<char>, to: Seq<char>) -> Seq<char> {
    "IP changed from "@ + from + " to "@ + to
}

impl DiscordWebhook {
    /// The webhook that posts to `url`.
    pub fn new(url: String) -> (webhook: DiscordWebhook)
        ensures
            webhook@.url == url@,
    {
        DiscordWebhook { url }
    }

    /// The address that notifications are posted to.
    pub fn url(&self) -> (url: &String)
        ensures
            url@ == self@.url,
    {
        &self.url
    }
}

impl WebhookNotifier for DiscordWebhook {
    open spec fn notification(&self, from: Seq<char>, to: Seq<char>) -> WebhookCallView {
        WebhookCallView { url: self@.url, content: discord_message(from, to) }
    }

    fn change_ip(&self, from: &String, to: &String) -> (call: WebhookCall) {
        let mut content = join("IP changed from ", from.as_str());
        content.append(" to ");
        content.append(to.as_str());
        WebhookCall { url: self.url.clone(), content }
    }
}

} // verus!
