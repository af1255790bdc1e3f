//! The capabilities a port of the reference overlay is measured against,
//! each with the component it came from, and those waived with the reason
//! they do not apply.
use vstd::prelude::*;

use crate::capability::Capability;

verus! {

/// The capabilities that are waived, each with why it does not apply here.
pub fn waived() -> Vec<(&'static str, &'static str)> {
    vec![
        (
            "price prediction",
            "poeprices.info is a third party. The workspace forbids one.",
        ),
        (
            "price trend history",
            "poe.ninja is a third party. The workspace forbids one.",
        ),
        (
            "feedback on a prediction",
            "reports back to the third party that made the prediction.",
        ),
        (
            "related items",
            "reads the fork maintainer's own server, which the workspace forbids.",
        ),
        (
            "item image",
            "images come from web.poecdn.com, which the network policy refuses.",
        ),
        (
            "influence icons",
            "images come from web.poecdn.com, which the network policy refuses.",
        ),
        (
            "currency icons",
            "images come from web.poecdn.com, which the network policy refuses.",
        ),
        (
            "in-app settings screen",
            "settings are a config file and tray menu here, not a screen.",
        ),
        (
            "app titlebar",
            "the overlay is undecorated on purpose. There is no titlebar.",
        ),
        (
            "fullscreen image viewer",
            "exists to enlarge a CDN image the network policy refuses.",
        ),
    ]
}

/// The capabilities the port is measured against, in the order the report
/// lists them.
pub fn capabilities() -> Vec<Capability> {
    vec![
        Capability {
            component: "FilterModifier.vue",
            name: "a filter row per modifier, labelled with the line the game printed",
            domain: &["FilterSource", "fn stats("],
            ui: &["stat_row"],
        },
        Capability {
            component: "FilterModifier.vue",
            name: "each filter can be switched off without losing its value",
            domain: &["fn set_enabled"],
            ui: &["UiEvent::ToggleRow"],
        },
        Capability {
            component: "FilterModifier.vue",
            name: "a minimum and a maximum can be typed per filter",
            domain: &["fn set_min", "fn set_max"],
            ui: &["UiEvent::SetMin", "UiEvent::SetMax"],
        },
        Capability {
            component: "StatRollSlider.vue",
            name: "a gauge shows where the roll sits inside its tier",
            domain: &["fn percent_of_bounds"],
            ui: &["fn gauge"],
        },
        Capability {
            component: "StatRollSlider.vue",
            name: "the gauge fills the part of the range the search asks for",
            domain: &["pub bounds"],
            ui: &["GAUGE_FILL"],
        },
        Capability {
            component: "FilterBtnNumeric.vue",
            name: "numeric property filters, one per property the item has",
            domain: &["enum NumericKey"],
            ui: &["fn numeric_row"],
        },
        Capability {
            component: "FilterBtnNumeric.vue",
            name: "a numeric filter starts from the item's own value",
            domain: &["fn numeric_row"],
            ui: &["fn bounds_inputs"],
        },
        Capability {
            component: "FilterBtnLogical.vue",
            name: "logical filters such as corrupted and mirrored",
            domain: &["enum FlagKey"],
            ui: &["fn flag_chip"],
        },
        Capability {
            component: "FilterBtnLogical.vue",
            name: "a logical filter can ask for the absence of something",
            domain: &["fn set_flag"],
            ui: &["UiEvent::InvertFlag"],
        },
        Capability {
            component: "FiltersBlock.vue",
            name: "the item's name and base type constrain the search",
            domain: &["fn name_rows"],
            ui: &["fn name_row"],
        },
        Capability {
            component: "FilterName.vue",
            name: "the search can be widened from the exact item to its base type",
            domain: &["enum NameMode"],
            ui: &["UiEvent::CycleName"],
        },
        Capability {
            component: "FiltersBlock.vue",
            name: "the whole stat block can be turned on or off at once",
            domain: &["fn set_all_stats"],
            ui: &["UiEvent::SetAllStats"],
        },
        Capability {
            component: "UnknownModifier.vue",
            name: "a modifier the parser did not recognise is called out",
            domain: &["unknown_modifiers"],
            ui: &["warnings"],
        },
        Capability {
            component: "FilterModifierTiers.vue",
            name: "the tier a modifier rolled at is shown",
            domain: &["fn tier_label"],
            ui: &["tier_label"],
        },
        Capability {
            component: "SourceInfo.vue",
            name: "a total says which modifiers add up to it",
            domain: &["pub contributors"],
            ui: &["fn contributor_line"],
        },
        Capability {
            component: "ItemEditor.vue",
            name: "an augment can be socketed into the item before searching",
            domain: &["fn preview_filters"],
            ui: &["fn augment_picker"],
        },
        Capability {
            component: "ItemEditorButton.vue",
            name: "each augment shows the stat it would grant",
            domain: &["fn augment_options"],
            ui: &["UiEvent::ChooseAugment"],
        },
        Capability {
            component: "ItemEditor.vue",
            name: "a chosen augment can be taken back off",
            domain: &["fn clear_augment"],
            ui: &["UiEvent::ClearAugment"],
        },
        Capability {
            component: "ItemEditor.vue",
            name: "the augment list is restricted to what fits this item",
            domain: &["fn effect_for_category"],
            ui: &["model.augments()"],
        },
        Capability {
            component: "TradeListing.vue",
            name: "the listings themselves are shown, not only how many there are",
            domain: &["fn read_listings"],
            ui: &["fn listing_rows"],
        },
        Capability {
            component: "TradeItem.vue",
            name: "each listing shows its price and currency",
            domain: &["pub struct Listing"],
            ui: &["fn listing_row"],
        },
        Capability {
            component: "TradeItem.vue",
            name: "each listing shows whether the seller is online",
            domain: &["pub online"],
            ui: &["ONLINE_DOT"],
        },
        Capability {
            component: "TradeItem.vue",
            name: "each listing shows who is selling it",
            domain: &["pub account"],
            ui: &["listing.account"],
        },
        Capability {
            component: "TradeListing.vue",
            name: "the matched count is shown beside the listings",
            domain: &["fn total("],
            ui: &["listings"],
        },
        Capability {
            component: "ItemQuickPrice.vue",
            name: "a price is suggested from what the market is actually asking",
            domain: &["fn suggested_price"],
            ui: &["fn price_banner"],
        },
        Capability {
            component: "ItemQuickPrice.vue",
            name: "the spread of asking prices is shown, not one number alone",
            domain: &["fn price_spread"],
            ui: &["price_spread"],
        },
        Capability {
            component: "PricePrediction.vue",
            name: "an estimate is offered before the listings are read",
            domain: &["fn estimate_from"],
            ui: &["price_banner"],
        },
        Capability {
            component: "StackValue.vue",
            name: "a stack is priced per unit and in total",
            domain: &["fn stack_value"],
            ui: &["stack_value"],
        },
        Capability {
            component: "TradeLinks.vue",
            name: "the search opens on the trade site",
            domain: &["fn browser_url"],
            ui: &["UiEvent::OpenInBrowser"],
        },
        Capability {
            component: "OnlineFilter.vue",
            name: "offline sellers can be included",
            domain: &["enum Status"],
            ui: &["UiEvent::ToggleOnline"],
        },
        Capability {
            component: "RateLimiterState.vue",
            name: "the rate limiter says how much room is left",
            domain: &["fn limiter_report"],
            ui: &["fn rate_limit_line"],
        },
        Capability {
            component: "PriceCheckWindow.vue",
            name: "the item's name and base type head the panel",
            domain: &["fn showing_text"],
            ui: &["text.title"],
        },
        Capability {
            component: "CheckedItem.vue",
            name: "rarity, item level and quality are shown",
            domain: &["fn showing_text"],
            ui: &["text.body"],
        },
        Capability {
            component: "CheckedItem.vue",
            name: "the rarity is coloured the way the game colours it",
            domain: &["fn rarity_colour"],
            ui: &["rarity_colour"],
        },
        Capability {
            component: "PriceCheckWindow.vue",
            name: "the panel says when it is still working",
            domain: &["OverlayState::Loading"],
            ui: &["Checking price"],
        },
        Capability {
            component: "UiErrorBox.vue",
            name: "a failure says what failed rather than going blank",
            domain: &["fn fail"],
            ui: &["OverlayState::Error"],
        },
        Capability {
            component: "PriceCheckWindow.vue",
            name: "the search can be run again after the filters are edited",
            domain: &["fn edited_check"],
            ui: &["UiEvent::Research"],
        },
        Capability {
            component: "PriceCheckWindow.vue",
            name: "the panel can be dismissed",
            domain: &["fn hide"],
            ui: &["UiEvent::Dismiss"],
        },
        Capability {
            component: "ReloadTradeData.vue",
            name: "the game data can be rebuilt without leaving the overlay",
            domain: &["fn rebuild_data"],
            ui: &["TrayAction::RebuildData"],
        },
        Capability {
            component: "main/src/windows/game.ts",
            name: "the running game is detected rather than configured",
            domain: &["fn detect_game"],
            ui: &["fn follow_game"],
        },
        Capability {
            component: "main/src/windows/game.ts",
            name: "the overlay follows when the other game comes to the front",
            domain: &["fn set_game"],
            ui: &["the game changed"],
        },
        Capability {
            component: "main/src/host-files/index.ts",
            name: "the game data lives inside the binary, so nothing is shipped beside it",
            domain: &["fn embedded"],
            ui: &["fn build_data"],
        },
        Capability {
            component: "main/src/update-checker.ts",
            name: "the game data refreshes itself from the official api",
            domain: &["fn refresh_due"],
            ui: &["fn start"],
        },
        Capability {
            component: "UnidentifiedResolver.vue",
            name: "an unidentified item is priced by its base and item level",
            domain: &["item.is_unidentified"],
            ui: &["is_unidentified"],
        },
        Capability {
            component: "BackgroundInfo.vue",
            name: "the league in use is visible",
            domain: &["fn last_league"],
            ui: &["league"],
        },
        Capability {
            component: "CheckPositionCircle.vue",
            name: "the panel opens where the check was made",
            domain: &["anchor_cursor"],
            ui: &["Anchor::Cursor"],
        },
        Capability {
            component: "VirtualScroll.vue",
            name: "a long filter list scrolls rather than overflowing",
            domain: &["fn filters("],
            ui: &["ScrollArea"],
        },
        Capability {
            component: "UiCheckbox.vue",
            name: "a filter's state is visible at a glance",
            domain: &["pub enabled"],
            ui: &["fn checkbox"],
        },
        Capability {
            component: "Popover.vue",
            name: "hovering a filter explains where its numbers came from",
            domain: &["fn roll_caption"],
            ui: &["on_hover_text"],
        },
        Capability {
            component: "ItemModifierText.vue",
            name: "the roll is shown inside the modifier text",
            domain: &["fn modifier_text"],
            ui: &["modifier_text"],
        },
    ]
}

} // verus!
