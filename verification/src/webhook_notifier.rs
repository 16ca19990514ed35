//! Webhook subscriptions: what is posted to each when the address changes.

use crate::discord_webhook::{discord_message, DiscordWebhook, DiscordWebhookView};
use vstd::prelude::*;

verus! {

/// One notification as a mathematical value.
pub struct WebhookCallView {
    pub url: Seq<char>,
    pub content: Seq<char>,
}

/// One notification: a message to be posted to an address.
#[derive(Debug, PartialEq, Eq)]
pub struct WebhookCall {
    pub url: String,
    pub content: String,
}

impl View for WebhookCall {
    type V = WebhookCallView;

    open spec fn view(&self) -> WebhookCallView {
        WebhookCallView { url: self.url@, content: self.content@ }
    }
}

/// The notifications of a list, each by its view.
pub open spec fn calls_view(calls: Seq<WebhookCall>) -> Seq<WebhookCallView> {
    calls.map_values(|c: WebhookCall| c@)
}

/// A target that is told when the address changes.
pub trait WebhookNotifier {
    /// What is posted when the address changes from `from` to `to`.
    spec fn notification(&self, from: Seq<char>, to: Seq<char>) -> WebhookCallView;

    /// The notification of a change of the address from `from` to `to`.
    fn change_ip(&self, from: &String, to: &String) -> (call: WebhookCall)
        ensures
            call@ == self.notification(from@, to@),
    ;
}

/// A webhook subscription as a mathematical value.
pub enum WebhookView {
    DiscordWebhook(DiscordWebhookView),
}

/// A webhook subscription, tagged with the kind of its target.
#[derive(Debug, PartialEq, Eq)]
pub enum WebhookNotifierType {
    DiscordWebhook(DiscordWebhook),
}

impl View for WebhookNotifierType {
    type V = WebhookView;

    open spec fn view(&self) -> WebhookView {
        match self {
            WebhookNotifierType::DiscordWebhook(webhook) => WebhookView::DiscordWebhook(webhook@),
        }
    }
}

impl Clone for WebhookNotifierType {
    fn clone(&self) -> (copy: Self)
        ensures
            copy@ == self@,
    {
        match self {
            WebhookNotifierType::DiscordWebhook(webhook) => WebhookNotifierType::DiscordWebhook(
                webhook.clone(),
            ),
        }
    }
}

/// The subscriptions of a list, each by its view.
pub open spec fn webhooks_view(webhooks: Seq<WebhookNotifierType>) -> Seq<WebhookView> {
    webhooks.map_values(|w: WebhookNotifierType| w@)
}

/// What is posted to `webhook` when the address changes from `from` to `to`.
pub open spec fn notification_of(
    webhook: WebhookView,
    from: Seq<char>,
    to: Seq<char>,
) -> WebhookCallView {
    match webhook {
        WebhookView::DiscordWebhook(discord) => WebhookCallView {
            url: discord.url,
            content: discord_message(from, to),
        },
    }
}

/// What is posted to each of `webhooks`, in their order, when the address
/// changes from `from` to `to`.
pub open spec fn notifications(
    webhooks: Seq<WebhookView>,
    from: Seq<char>,
    to: Seq<char>,
) -> Seq<WebhookCallView> {
    webhooks.map_values(|w: WebhookView| notification_of(w, from, to))
}

impl WebhookNotifier for WebhookNotifierType {
    open spec fn notification(&self, from: Seq<char>, to: Seq<char>) -> WebhookCallView {
        notification_of(self@, from, to)
    }

    fn change_ip(&self, from: &String, to: &String) -> (call: WebhookCall) {
        match self {
            WebhookNotifierType::DiscordWebhook(webhook) => webhook.change_ip(from, to),
        }
    }
}

/// The notifications for all of `webhooks`, in their order.
pub fn notify_all(webhooks: &Vec<WebhookNotifierType>, from: &String, to: &String) -> (calls: Vec<
    WebhookCall,
>)
    ensures
        calls_view(calls@) == notifications(webhooks_view(webhooks@), from@, to@),
{
    let mut calls: Vec<WebhookCall> = Vec::new();
    let mut k: usize = 0;
    while k < webhooks.len()
        invariant
            k <= webhooks.len(),
            calls@.len() == k,
            forall|j: int|
                0 <= j < k ==> (#[trigger] calls@[j])@ == notification_of(
                    webhooks@[j]@,
                    from@,
                    to@,
                ),
        decreases webhooks.len() - k,
    {
        calls.push(webhooks[k].change_ip(from, to));
        k = k + 1;
    }
    assert(calls_view(calls@) =~= notifications(webhooks_view(webhooks@), from@, to@));
    calls
}

} // verus!
