//! What a config comes down to: which (format, size, framerates) are advertised, in which order.

use vstd::prelude::*;
use crate::config::{mode_views, Config, ConfigView, Mode, ModeView};
use crate::format::Format;
use crate::pod::{
    enumformat_object, enumformat_pod, meta_object, meta_pod, object_views, FpsChoice, Object,
    ObjectView, ParamType,
};

verus! {

/// A format at a size.
#[derive(Clone, Copy, Debug, PartialEq, Eq, Structural)]
pub struct Place {
    pub format: Format,
    pub width: u32,
    pub height: u32,
}

/// A format at a size, with the framerates it comes in.
#[verifier::ext_equal]
pub struct Offer {
    pub format: Format,
    pub width: u32,
    pub height: u32,
    pub fps: Seq<u32>,
}

/// The values of `s` in order, each where it first occurs.
pub open spec fn distinct<A>(s: Seq<A>) -> Seq<A>
    decreases s.len(),
{
    if s.len() == 0 {
        s
    } else if s.drop_last().contains(s.last()) {
        distinct(s.drop_last())
    } else {
        distinct(s.drop_last()).push(s.last())
    }
}

/// Each format of `mode`, at its size.
pub open spec fn mode_places(mode: ModeView) -> Seq<Place> {
    mode.formats.map_values(
        |format: Format| Place { format, width: mode.width, height: mode.height },
    )
}

/// Each format of each mode at the mode's size, mode by mode.
pub open spec fn listed_places(modes: Seq<ModeView>) -> Seq<Place>
    decreases modes.len(),
{
    if modes.len() == 0 {
        Seq::empty()
    } else {
        listed_places(modes.drop_last()) + mode_places(modes.last())
    }
}

/// Whether `mode` lists the format at this size.
pub open spec fn lists(mode: ModeView, format: Format, width: u32, height: u32) -> bool {
    mode.width == width && mode.height == height && mode.formats.contains(format)
}

/// The framerates of every mode of this size that lists the format, one after the other in mode
/// order.
pub open spec fn rates_for(modes: Seq<ModeView>, format: Format, width: u32, height: u32) -> Seq<
    u32,
>
    decreases modes.len(),
{
    if modes.len() == 0 {
        Seq::empty()
    } else {
        let before = rates_for(modes.drop_last(), format, width, height);
        if lists(modes.last(), format, width, height) {
            before + modes.last().fps
        } else {
            before
        }
    }
}

/// What the modes together offer of a format at a size: each of its framerates, once.
pub open spec fn offer_at(modes: Seq<ModeView>, place: Place) -> Offer {
    Offer {
        format: place.format,
        width: place.width,
        height: place.height,
        fps: distinct(rates_for(modes, place.format, place.width, place.height)),
    }
}

/// What the modes offer: one offer per format and size, in the order in which they first occur.
pub open spec fn offers_of(modes: Seq<ModeView>) -> Seq<Offer> {
    distinct(listed_places(modes)).map_values(|place: Place| offer_at(modes, place))
}

/// Whether the offer is for this format at this size.
pub open spec fn offer_is_for(offer: Offer, format: Format, width: u32, height: u32) -> bool {
    offer.format == format && offer.width == width && offer.height == height
}

/// Whole framerates as fractions.
pub open spec fn whole_rates(fps: Seq<u32>) -> Seq<FpsChoice> {
    fps.map_values(|f: u32| (f, 1u32))
}

/// The object that advertises an offer.
pub open spec fn offer_object(offer: Offer) -> ObjectView {
    enumformat_object(offer.format, offer.width, offer.height, whole_rates(offer.fps))
}

/// Everything advertised for `config`: one object per offer, then the request for a `Header`
/// meta.
pub open spec fn advertised_objects(config: ConfigView) -> Seq<ObjectView> {
    offers_of(config.modes).map_values(|offer: Offer| offer_object(offer)).push(meta_object())
}

/// Every offer comes with a framerate.
pub open spec fn all_rated(offers: Seq<Offer>) -> bool {
    forall|i: int| 0 <= i < offers.len() ==> (#[trigger] offers[i]).fps.len() > 0
}

fn contains_rate(rates: &Vec<u32>, rate: u32) -> (r: bool)
    ensures
        r == rates@.contains(rate),
{
    let mut i: usize = 0;
    while i < rates.len()
        invariant
            i <= rates@.len(),
            forall|j: int| 0 <= j < i ==> rates@[j] != rate,
        decreases rates@.len() - i,
    {
        if rates[i] == rate {
            assert(rates@[i as int] == rate);
            return true;
        }
        i += 1;
    }
    false
}

fn contains_place(places: &Vec<Place>, place: Place) -> (r: bool)
    ensures
        r == places@.contains(place),
{
    let mut i: usize = 0;
    while i < places.len()
        invariant
            i <= places@.len(),
            forall|j: int| 0 <= j < i ==> places@[j] != place,
        decreases places@.len() - i,
    {
        if places[i] == place {
            assert(places@[i as int] == place);
            return true;
        }
        i += 1;
    }
    false
}

/// Whether `mode` lists the place's format at its size.
fn mode_lists(mode: &Mode, place: Place) -> (r: bool)
    ensures
        r == lists(mode@, place.format, place.width, place.height),
{
    if mode.width != place.width || mode.height != place.height {
        return false;
    }
    let mut i: usize = 0;
    while i < mode.formats.len()
        invariant
            i <= mode.formats@.len(),
            mode.width == place.width,
            mode.height == place.height,
            forall|j: int| 0 <= j < i ==> mode.formats@[j] != place.format,
        decreases mode.formats@.len() - i,
    {
        if mode.formats[i] == place.format {
            assert(mode.formats@[i as int] == place.format);
            return true;
        }
        i += 1;
    }
    false
}

/// Collects the places of `mode` that are not there yet.
fn collect_places(places: &mut Vec<Place>, mode: &Mode, listed: Ghost<Seq<Place>>)
    requires
        old(places)@ == distinct(listed@),
    ensures
        final(places)@ == distinct(listed@ + mode_places(mode@)),
{
    let ghost added = mode_places(mode@);
    assert(listed@ + added.take(0) == listed@);
    let mut n: usize = 0;
    while n < mode.formats.len()
        invariant
            n <= mode@.formats.len(),
            added == mode_places(mode@),
            places@ == distinct(listed@ + added.take(n as int)),
        decreases mode@.formats.len() - n,
    {
        let place = Place { format: mode.formats[n], width: mode.width, height: mode.height };
        proof {
            let before = listed@ + added.take(n as int);
            let after = listed@ + added.take(n + 1);
            assert(after.drop_last() == before);
            assert(after.last() == place);
            lemma_distinct_keeps_values(before, place);
        }
        if !contains_place(places, place) {
            places.push(place);
        }
        n += 1;
    }
    assert(added.take(added.len() as int) == added);
}

/// Collects the framerates of `mode` that are not there yet.
fn collect_rates(rates: &mut Vec<u32>, mode: &Mode, listed: Ghost<Seq<u32>>)
    requires
        old(rates)@ == distinct(listed@),
    ensures
        final(rates)@ == distinct(listed@ + mode@.fps),
{
    let ghost added = mode@.fps;
    assert(listed@ + added.take(0) == listed@);
    let mut n: usize = 0;
    while n < mode.fps.len()
        invariant
            n <= mode@.fps.len(),
            added == mode@.fps,
            rates@ == distinct(listed@ + added.take(n as int)),
        decreases mode@.fps.len() - n,
    {
        let rate: u32 = mode.fps[n];
        proof {
            let before = listed@ + added.take(n as int);
            let after = listed@ + added.take(n + 1);
            assert(after.drop_last() == before);
            assert(after.last() == rate);
            lemma_distinct_keeps_values(before, rate);
        }
        if !contains_rate(rates, rate) {
            rates.push(rate);
        }
        n += 1;
    }
    assert(added.take(added.len() as int) == added);
}

/// Each format at each size that the modes list, once.
fn distinct_places(modes: &Vec<Mode>) -> (r: Vec<Place>)
    ensures
        r@ == distinct(listed_places(mode_views(modes@))),
{
    let ghost views = mode_views(modes@);
    let mut places: Vec<Place> = Vec::new();
    let mut m: usize = 0;
    assert(places@ == distinct(listed_places(views.take(0))));
    while m < modes.len()
        invariant
            m <= modes@.len(),
            views == mode_views(modes@),
            places@ == distinct(listed_places(views.take(m as int))),
        decreases modes@.len() - m,
    {
        collect_places(&mut places, &modes[m], Ghost(listed_places(views.take(m as int))));
        proof {
            let so_far = views.take(m + 1);
            assert(so_far.drop_last() == views.take(m as int));
            assert(so_far.last() == modes@[m as int]@);
        }
        m += 1;
    }
    assert(views.take(views.len() as int) == views);
    places
}

/// Each framerate that the modes have for the place, once.
fn distinct_rates(modes: &Vec<Mode>, place: Place) -> (r: Vec<u32>)
    ensures
        r@ == offer_at(mode_views(modes@), place).fps,
{
    let ghost views = mode_views(modes@);
    let mut rates: Vec<u32> = Vec::new();
    let mut m: usize = 0;
    assert(rates@ == offer_at(views.take(0), place).fps);
    while m < modes.len()
        invariant
            m <= modes@.len(),
            views == mode_views(modes@),
            rates@ == offer_at(views.take(m as int), place).fps,
        decreases modes@.len() - m,
    {
        proof {
            let so_far = views.take(m + 1);
            assert(so_far.drop_last() == views.take(m as int));
            assert(so_far.last() == modes@[m as int]@);
        }
        if mode_lists(&modes[m], place) {
            collect_rates(
                &mut rates,
                &modes[m],
                Ghost(rates_for(views.take(m as int), place.format, place.width, place.height)),
            );
        }
        m += 1;
    }
    assert(views.take(views.len() as int) == views);
    rates
}

/// The objects to advertise for `config`: one plain-values Format object per
/// unique (format, size) combination, with every framerate that the modes list for it, followed
/// by a `meta` (Header) request.
pub fn advertised_param_blobs(config: &Config) -> (r: Vec<Object>)
    requires
        all_rated(offers_of(config@.modes)),
    ensures
        object_views(r@) == advertised_objects(config@),
{
    let ghost offers = offers_of(config@.modes);
    let places = distinct_places(&config.modes);
    let mut blobs: Vec<Object> = Vec::new();
    let mut i: usize = 0;
    while i < places.len()
        invariant
            i <= places@.len(),
            places@ == distinct(listed_places(config@.modes)),
            offers == offers_of(config@.modes),
            all_rated(offers),
            blobs@.len() == i,
            forall|j: int| 0 <= j < i ==> (#[trigger] blobs@[j])@ == offer_object(offers[j]),
        decreases places@.len() - i,
    {
        let place = places[i];
        assert(offers[i as int] == offer_at(config@.modes, place));
        let rates = whole_framerates(&distinct_rates(&config.modes, place));
        assert(rates@.len() == offers[i as int].fps.len());
        blobs.push(enumformat_pod(place.format, place.width, place.height, rates.as_slice()));
        i += 1;
    }
    blobs.push(meta_pod());
    assert(object_views(blobs@) == advertised_objects(config@));
    blobs
}

fn whole_framerates(fps: &Vec<u32>) -> (r: Vec<FpsChoice>)
    ensures
        r@ == whole_rates(fps@),
{
    let mut r: Vec<FpsChoice> = Vec::new();
    let mut i: usize = 0;
    while i < fps.len()
        invariant
            i <= fps@.len(),
            r@.len() == i,
            forall|j: int| 0 <= j < i ==> #[trigger] r@[j] == (fps@[j], 1u32),
        decreases fps@.len() - i,
    {
        r.push((fps[i], 1));
        i += 1;
    }
    assert(r@ == whole_rates(fps@));
    r
}

proof fn lemma_distinct_keeps_values<A>(s: Seq<A>, value: A)
    ensures
        distinct(s).contains(value) <==> s.contains(value),
    decreases s.len(),
{
    if s.len() > 0 {
        let front = s.drop_last();
        lemma_distinct_keeps_values(front, value);
        lemma_distinct_keeps_values(front, s.last());
        if s.contains(value) {
            let i = choose|i: int| 0 <= i < s.len() && s[i] == value;
            if i < front.len() {
                assert(front[i] == value);
            }
        }
        if front.contains(value) {
            let i = choose|i: int| 0 <= i < front.len() && front[i] == value;
            assert(s[i] == value);
        }
        if !front.contains(s.last()) {
            let d = distinct(front);
            assert(distinct(s) == d.push(s.last()));
            assert(d.push(s.last())[d.len() as int] == s.last());
            if d.contains(value) {
                let i = choose|i: int| 0 <= i < d.len() && d[i] == value;
                assert(d.push(s.last())[i] == value);
            }
            if d.push(s.last()).contains(value) {
                let i = choose|i: int| 0 <= i < d.len() + 1 && d.push(s.last())[i] == value;
                if i < d.len() {
                    assert(d[i] == value);
                } else {
                    assert(s[s.len() - 1] == value);
                }
            }
        } else {
            assert(s[s.len() - 1] == s.last());
        }
    }
}

/// Leaving out repetitions keeps every value, and keeps it once.
pub proof fn law_distinct_keeps_each_once<A>(s: Seq<A>)
    ensures
        distinct(s).no_duplicates(),
        forall|value: A| #[trigger] distinct(s).contains(value) <==> s.contains(value),
    decreases s.len(),
{
    assert forall|value: A| #[trigger] distinct(s).contains(value) <==> s.contains(value) by {
        lemma_distinct_keeps_values(s, value);
    }
    if s.len() > 0 {
        law_distinct_keeps_each_once(s.drop_last());
        let d = distinct(s.drop_last());
        if !s.drop_last().contains(s.last()) {
            assert(!d.contains(s.last()));
            assert forall|i: int, j: int| 0 <= i < d.len() + 1 && 0 <= j < d.len() + 1 && i
                != j implies d.push(s.last())[i] != d.push(s.last())[j] by {
                if i < d.len() {
                    assert(d.contains(d[i]));
                }
                if j < d.len() {
                    assert(d.contains(d[j]));
                }
            }
        }
    }
}

/// A place is listed exactly where a mode lists it.
proof fn lemma_listed(modes: Seq<ModeView>, place: Place)
    ensures
        listed_places(modes).contains(place) <==> exists|m: int|
            0 <= m < modes.len() && lists(
                #[trigger] modes[m],
                place.format,
                place.width,
                place.height,
            ),
    decreases modes.len(),
{
    if modes.len() > 0 {
        let front = modes.drop_last();
        let last = modes.last();
        let before = listed_places(front);
        let added = mode_places(last);
        lemma_listed(front, place);
        if listed_places(modes).contains(place) {
            let i = choose|i: int| 0 <= i < (before + added).len() && (before + added)[i] == place;
            if i < before.len() {
                assert(before[i] == place);
                let m = choose|m: int|
                    0 <= m < front.len() && lists(
                        #[trigger] front[m],
                        place.format,
                        place.width,
                        place.height,
                    );
                assert(modes[m] == front[m]);
            } else {
                assert(added[i - before.len()] == place);
                assert(last.formats[i - before.len()] == place.format);
                assert(modes[modes.len() - 1] == last);
            }
        }
        if exists|m: int|
            0 <= m < modes.len() && lists(
                #[trigger] modes[m],
                place.format,
                place.width,
                place.height,
            ) {
            let m = choose|m: int|
                0 <= m < modes.len() && lists(
                    #[trigger] modes[m],
                    place.format,
                    place.width,
                    place.height,
                );
            if m < front.len() {
                assert(front[m] == modes[m]);
                let i = choose|i: int| 0 <= i < before.len() && before[i] == place;
                assert((before + added)[i] == place);
            } else {
                let k = choose|k: int|
                    0 <= k < last.formats.len() && last.formats[k] == place.format;
                assert((before + added)[before.len() + k] == place);
            }
        }
    }
}

/// Whether `mode` lists the format at this size, with this framerate.
pub open spec fn lists_rate(
    mode: ModeView,
    format: Format,
    width: u32,
    height: u32,
    rate: u32,
) -> bool {
    lists(mode, format, width, height) && mode.fps.contains(rate)
}

/// A framerate is collected exactly where a mode lists it.
proof fn lemma_rates(modes: Seq<ModeView>, format: Format, width: u32, height: u32, rate: u32)
    ensures
        rates_for(modes, format, width, height).contains(rate) <==> exists|m: int|
            0 <= m < modes.len() && lists_rate(#[trigger] modes[m], format, width, height, rate),
    decreases modes.len(),
{
    if modes.len() > 0 {
        let front = modes.drop_last();
        let last = modes.last();
        let before = rates_for(front, format, width, height);
        let all = rates_for(modes, format, width, height);
        lemma_rates(front, format, width, height, rate);
        if all.contains(rate) {
            let i = choose|i: int| 0 <= i < all.len() && all[i] == rate;
            if i < before.len() {
                assert(before[i] == rate);
                let m = choose|m: int|
                    0 <= m < front.len() && lists_rate(
                        #[trigger] front[m],
                        format,
                        width,
                        height,
                        rate,
                    );
                assert(modes[m] == front[m]);
            } else {
                assert(last.fps[i - before.len()] == rate);
                assert(lists_rate(modes[modes.len() - 1], format, width, height, rate));
            }
        }
        if exists|m: int|
            0 <= m < modes.len() && lists_rate(#[trigger] modes[m], format, width, height, rate) {
            let m = choose|m: int|
                0 <= m < modes.len() && lists_rate(#[trigger] modes[m], format, width, height, rate);
            if m < front.len() {
                assert(front[m] == modes[m]);
                let i = choose|i: int| 0 <= i < before.len() && before[i] == rate;
                assert(all[i] == rate);
            } else {
                let j = choose|j: int| 0 <= j < last.fps.len() && last.fps[j] == rate;
                assert(all[before.len() + j] == rate);
            }
        }
    }
}

/// No two offers are for the same format at the same size.
pub proof fn law_each_size_offered_once(modes: Seq<ModeView>, i: int, j: int)
    requires
        0 <= i < offers_of(modes).len(),
        0 <= j < offers_of(modes).len(),
        offer_is_for(
            offers_of(modes)[j],
            offers_of(modes)[i].format,
            offers_of(modes)[i].width,
            offers_of(modes)[i].height,
        ),
    ensures
        i == j,
{
    law_distinct_keeps_each_once(listed_places(modes));
    let places = distinct(listed_places(modes));
    assert(places[i] == places[j]);
}

/// Every framerate of every mode is advertised, for each of the mode's formats at its size.
pub proof fn law_every_rate_is_advertised(modes: Seq<ModeView>, m: int, k: int, j: int)
    requires
        0 <= m < modes.len(),
        0 <= k < modes[m].formats.len(),
        0 <= j < modes[m].fps.len(),
    ensures
        exists|i: int|
            0 <= i < offers_of(modes).len() && offer_is_for(
                #[trigger] offers_of(modes)[i],
                modes[m].formats[k],
                modes[m].width,
                modes[m].height,
            ) && offers_of(modes)[i].fps.contains(modes[m].fps[j]),
{
    let mode = modes[m];
    let place = Place { format: mode.formats[k], width: mode.width, height: mode.height };
    let rate = mode.fps[j];
    let places = distinct(listed_places(modes));
    assert(lists(modes[m], place.format, place.width, place.height));
    lemma_listed(modes, place);
    lemma_distinct_keeps_values(listed_places(modes), place);
    let i = choose|i: int| 0 <= i < places.len() && places[i] == place;
    assert(offers_of(modes)[i] == offer_at(modes, place));
    assert(lists_rate(modes[m], place.format, place.width, place.height, rate));
    lemma_rates(modes, place.format, place.width, place.height, rate);
    lemma_distinct_keeps_values(
        rates_for(modes, place.format, place.width, place.height),
        rate,
    );
}

/// Nothing else is advertised: every framerate of an offer is one that a mode lists for this
/// format at this size.
pub proof fn law_every_advertised_rate_is_listed(modes: Seq<ModeView>, i: int, a: int)
    requires
        0 <= i < offers_of(modes).len(),
        0 <= a < offers_of(modes)[i].fps.len(),
    ensures
        exists|m: int|
            0 <= m < modes.len() && lists_rate(
                #[trigger] modes[m],
                offers_of(modes)[i].format,
                offers_of(modes)[i].width,
                offers_of(modes)[i].height,
                offers_of(modes)[i].fps[a],
            ),
{
    let offer = offers_of(modes)[i];
    assert(offer.fps.contains(offer.fps[a]));
    lemma_distinct_keeps_values(
        rates_for(modes, offer.format, offer.width, offer.height),
        offer.fps[a],
    );
    lemma_rates(modes, offer.format, offer.width, offer.height, offer.fps[a]);
}

/// No (format, size, framerate) combination is advertised twice.
pub proof fn law_no_combination_offered_twice(
    modes: Seq<ModeView>,
    i: int,
    a: int,
    j: int,
    b: int,
)
    requires
        0 <= i < offers_of(modes).len(),
        0 <= j < offers_of(modes).len(),
        0 <= a < offers_of(modes)[i].fps.len(),
        0 <= b < offers_of(modes)[j].fps.len(),
        offer_is_for(
            offers_of(modes)[j],
            offers_of(modes)[i].format,
            offers_of(modes)[i].width,
            offers_of(modes)[i].height,
        ),
        offers_of(modes)[i].fps[a] == offers_of(modes)[j].fps[b],
    ensures
        i == j,
        a == b,
{
    law_each_size_offered_once(modes, i, j);
    let offer = offers_of(modes)[i];
    law_distinct_keeps_each_once(rates_for(modes, offer.format, offer.width, offer.height));
}

/// A sane config offers every format with at least one framerate.
pub proof fn law_sane_config_is_rated(config: ConfigView)
    requires
        config.sane(),
    ensures
        all_rated(offers_of(config.modes)),
        offers_of(config.modes).len() > 0,
{
    let modes = config.modes;
    let offers = offers_of(modes);
    let places = distinct(listed_places(modes));
    assert forall|i: int| 0 <= i < offers.len() implies (#[trigger] offers[i]).fps.len() > 0 by {
        let place = places[i];
        assert(places.contains(place));
        lemma_distinct_keeps_values(listed_places(modes), place);
        lemma_listed(modes, place);
        let m = choose|m: int|
            0 <= m < modes.len() && lists(
                #[trigger] modes[m],
                place.format,
                place.width,
                place.height,
            );
        let rate = modes[m].fps[0];
        assert(modes[m].sane());
        assert(lists_rate(modes[m], place.format, place.width, place.height, rate));
        lemma_rates(modes, place.format, place.width, place.height, rate);
        lemma_distinct_keeps_values(
            rates_for(modes, place.format, place.width, place.height),
            rate,
        );
    }
    assert(modes[0].sane());
    law_every_rate_is_advertised(modes, 0, 0, 0);
}

/// The `Header` meta request comes last and is the only one; every object before it advertises
/// a format.
pub proof fn law_meta_request_comes_last(config: ConfigView)
    ensures
        advertised_objects(config).len() == offers_of(config.modes).len() + 1,
        advertised_objects(config).last() == meta_object(),
        forall|i: int|
            0 <= i < offers_of(config.modes).len() ==> (#[trigger] advertised_objects(config)[i]).id
                == ParamType::EnumFormat,
{
}

/// Each object before the meta request advertises one offer, with its framerates as whole
/// numbers over one.
pub proof fn law_objects_advertise_the_offers(config: ConfigView, i: int)
    requires
        0 <= i < offers_of(config.modes).len(),
    ensures
        exists|fps: Seq<FpsChoice>|
            {
                &&& advertised_objects(config)[i] == #[trigger] enumformat_object(
                    offers_of(config.modes)[i].format,
                    offers_of(config.modes)[i].width,
                    offers_of(config.modes)[i].height,
                    fps,
                )
                &&& fps.len() == offers_of(config.modes)[i].fps.len()
                &&& forall|a: int|
                    0 <= a < fps.len() ==> #[trigger] fps[a] == (
                        offers_of(config.modes)[i].fps[a],
                        1u32,
                    )
            },
{
    let offer = offers_of(config.modes)[i];
    let fps = whole_rates(offer.fps);
    assert(advertised_objects(config)[i] == enumformat_object(
        offer.format,
        offer.width,
        offer.height,
        fps,
    ));
}

/// Of two values, the one that occurs first comes first.
proof fn lemma_distinct_in_order<A>(s: Seq<A>, i: int, j: int)
    requires
        0 <= i < j < distinct(s).len(),
    ensures
        exists|p: int|
            0 <= p < s.len() && #[trigger] s[p] == distinct(s)[i] && forall|q: int|
                0 <= q <= p ==> #[trigger] s[q] != distinct(s)[j],
    decreases s.len(),
{
    let front = s.drop_last();
    let d = distinct(front);
    if j < d.len() {
        lemma_distinct_in_order(front, i, j);
        let p = choose|p: int|
            0 <= p < front.len() && #[trigger] front[p] == d[i] && forall|q: int|
                0 <= q <= p ==> #[trigger] front[q] != d[j];
        assert(s[p] == distinct(s)[i]);
        assert forall|q: int| 0 <= q <= p implies #[trigger] s[q] != distinct(s)[j] by {
            assert(s[q] == front[q]);
        }
    } else {
        assert(!front.contains(s.last()));
        assert(distinct(s)[j] == s.last());
        assert(d.contains(d[i]));
        lemma_distinct_keeps_values(front, d[i]);
        let p = choose|p: int| 0 <= p < front.len() && front[p] == d[i];
        assert(s[p] == distinct(s)[i]);
        assert forall|q: int| 0 <= q <= p implies #[trigger] s[q] != distinct(s)[j] by {
            assert(s[q] == front[q]);
        }
    }
}

/// Where the places of the `m`th mode start.
spec fn places_before(modes: Seq<ModeView>, m: int) -> int {
    listed_places(modes.take(m)).len() as int
}

/// The `k`th format of the `m`th mode is listed at its position.
proof fn lemma_place_position(modes: Seq<ModeView>, m: int, k: int)
    requires
        0 <= m < modes.len(),
        0 <= k < modes[m].formats.len(),
    ensures
        0 <= places_before(modes, m) + k < listed_places(modes).len(),
        listed_places(modes)[places_before(modes, m) + k] == (Place {
            format: modes[m].formats[k],
            width: modes[m].width,
            height: modes[m].height,
        }),
    decreases modes.len(),
{
    let front = modes.drop_last();
    if m < front.len() {
        assert(front[m] == modes[m]);
        lemma_place_position(front, m, k);
        assert(front.take(m) == modes.take(m));
    } else {
        assert(modes.take(m) == front);
        assert(mode_places(modes.last())[k] == (Place {
            format: modes[m].formats[k],
            width: modes[m].width,
            height: modes[m].height,
        }));
    }
}

/// Every position belongs to a format of a mode.
proof fn lemma_position_of_place(modes: Seq<ModeView>, p: int) -> (r: (int, int))
    requires
        0 <= p < listed_places(modes).len(),
    ensures
        0 <= r.0 < modes.len(),
        0 <= r.1 < modes[r.0].formats.len(),
        p == places_before(modes, r.0) + r.1,
    decreases modes.len(),
{
    let front = modes.drop_last();
    let before = listed_places(front).len() as int;
    if p < before {
        let r = lemma_position_of_place(front, p);
        assert(front[r.0] == modes[r.0]);
        assert(front.take(r.0) == modes.take(r.0));
        r
    } else {
        let m = modes.len() - 1;
        assert(modes.take(m) == front);
        (m, p - before)
    }
}

/// A mode's places end before those of a later mode start.
proof fn lemma_places_in_order(modes: Seq<ModeView>, a: int, b: int)
    requires
        0 <= a < b <= modes.len(),
    ensures
        places_before(modes, a) + modes[a].formats.len() <= places_before(modes, b),
    decreases b,
{
    let upto = modes.take(b);
    assert(upto.drop_last() == modes.take(b - 1));
    assert(upto.last() == modes[b - 1]);
    if a < b - 1 {
        lemma_places_in_order(modes, a, b - 1);
    }
}

/// Whether the `k`th format of the `m`th mode is for this format at this size.
pub open spec fn listed_at(modes: Seq<ModeView>, m: int, k: int, offer: Offer) -> bool {
    &&& 0 <= m < modes.len()
    &&& 0 <= k < modes[m].formats.len()
    &&& modes[m].formats[k] == offer.format
    &&& modes[m].width == offer.width
    &&& modes[m].height == offer.height
}

/// Offers come in the order in which the modes first list them: of two offers, the first one is
/// listed somewhere before which, and at which, the second one is not.
pub proof fn law_offers_come_as_listed(modes: Seq<ModeView>, i: int, j: int)
    requires
        0 <= i < j < offers_of(modes).len(),
    ensures
        exists|m: int, k: int|
            #[trigger] listed_at(modes, m, k, offers_of(modes)[i]) && forall|n: int, l: int|
                #[trigger] listed_at(modes, n, l, offers_of(modes)[j]) ==> n > m || n == m && l > k,
{
    let places = listed_places(modes);
    lemma_distinct_in_order(places, i, j);
    let p = choose|p: int|
        0 <= p < places.len() && #[trigger] places[p] == distinct(places)[i] && forall|q: int|
            0 <= q <= p ==> #[trigger] places[q] != distinct(places)[j];
    let (m, k) = lemma_position_of_place(modes, p);
    lemma_place_position(modes, m, k);
    assert(listed_at(modes, m, k, offers_of(modes)[i]));
    assert forall|n: int, l: int| #[trigger]
        listed_at(modes, n, l, offers_of(modes)[j]) implies n > m || n == m && l > k by {
        lemma_place_position(modes, n, l);
        let q = places_before(modes, n) + l;
        assert(places[q] == distinct(places)[j]);
        if n < m {
            lemma_places_in_order(modes, n, m);
        }
    }
}

/// Where the framerates of the `m`th mode start among those for a place.
spec fn rates_before(modes: Seq<ModeView>, offer: Offer, m: int) -> int {
    rates_for(modes.take(m), offer.format, offer.width, offer.height).len() as int
}

/// Whether the `k`th framerate of the `m`th mode is one for this format at this size.
pub open spec fn rated_at(modes: Seq<ModeView>, m: int, k: int, offer: Offer, rate: u32) -> bool {
    &&& 0 <= m < modes.len()
    &&& 0 <= k < modes[m].fps.len()
    &&& modes[m].fps[k] == rate
    &&& modes[m].formats.contains(offer.format)
    &&& modes[m].width == offer.width
    &&& modes[m].height == offer.height
}

proof fn lemma_rate_position(modes: Seq<ModeView>, m: int, k: int, offer: Offer, rate: u32)
    requires
        rated_at(modes, m, k, offer, rate),
    ensures
        0 <= rates_before(modes, offer, m) + k < rates_for(
            modes,
            offer.format,
            offer.width,
            offer.height,
        ).len(),
        rates_for(modes, offer.format, offer.width, offer.height)[rates_before(modes, offer, m) + k]
            == rate,
    decreases modes.len(),
{
    let front = modes.drop_last();
    if m < front.len() {
        assert(front[m] == modes[m]);
        lemma_rate_position(front, m, k, offer, rate);
        assert(front.take(m) == modes.take(m));
    } else {
        assert(modes.take(m) == front);
        assert(lists(modes.last(), offer.format, offer.width, offer.height));
    }
}

proof fn lemma_position_of_rate(modes: Seq<ModeView>, p: int, offer: Offer) -> (r: (int, int))
    requires
        0 <= p < rates_for(modes, offer.format, offer.width, offer.height).len(),
    ensures
        rated_at(
            modes,
            r.0,
            r.1,
            offer,
            rates_for(modes, offer.format, offer.width, offer.height)[p],
        ),
        p == rates_before(modes, offer, r.0) + r.1,
    decreases modes.len(),
{
    let front = modes.drop_last();
    let before = rates_for(front, offer.format, offer.width, offer.height);
    if p < before.len() {
        let r = lemma_position_of_rate(front, p, offer);
        assert(front[r.0] == modes[r.0]);
        assert(front.take(r.0) == modes.take(r.0));
        r
    } else {
        let m = modes.len() - 1;
        assert(modes.take(m) == front);
        (m, p - before.len())
    }
}

proof fn lemma_rates_in_order(modes: Seq<ModeView>, a: int, b: int, offer: Offer)
    requires
        0 <= a < b <= modes.len(),
        lists(modes[a], offer.format, offer.width, offer.height),
    ensures
        rates_before(modes, offer, a) + modes[a].fps.len() <= rates_before(modes, offer, b),
    decreases b,
{
    let upto = modes.take(b);
    assert(upto.drop_last() == modes.take(b - 1));
    assert(upto.last() == modes[b - 1]);
    if a < b - 1 {
        lemma_rates_in_order(modes, a, b - 1, offer);
    }
}

/// The framerates of an offer come in the order in which the modes first list them for its
/// format and size; the first of them is the one a consumer gets by default.
pub proof fn law_rates_come_as_listed(modes: Seq<ModeView>, i: int, a: int, b: int)
    requires
        0 <= i < offers_of(modes).len(),
        0 <= a < b < offers_of(modes)[i].fps.len(),
    ensures
        exists|m: int, k: int|
            #[trigger] rated_at(
                modes,
                m,
                k,
                offers_of(modes)[i],
                offers_of(modes)[i].fps[a],
            ) && forall|n: int, l: int|
                #[trigger] rated_at(
                    modes,
                    n,
                    l,
                    offers_of(modes)[i],
                    offers_of(modes)[i].fps[b],
                ) ==> n > m || n == m && l > k,
{
    let offer = offers_of(modes)[i];
    let rates = rates_for(modes, offer.format, offer.width, offer.height);
    lemma_distinct_in_order(rates, a, b);
    let p = choose|p: int|
        0 <= p < rates.len() && #[trigger] rates[p] == distinct(rates)[a] && forall|q: int|
            0 <= q <= p ==> #[trigger] rates[q] != distinct(rates)[b];
    let (m, k) = lemma_position_of_rate(modes, p, offer);
    assert(rated_at(modes, m, k, offer, offer.fps[a]));
    assert forall|n: int, l: int| #[trigger]
        rated_at(modes, n, l, offer, offer.fps[b]) implies n > m || n == m && l > k by {
        lemma_rate_position(modes, n, l, offer, offer.fps[b]);
        let q = rates_before(modes, offer, n) + l;
        assert(rates[q] == distinct(rates)[b]);
        if n < m {
            lemma_rates_in_order(modes, n, m, offer);
        }
    }
}

/// Every offer is for a format that a mode lists at its size.
pub proof fn law_every_offer_is_listed(modes: Seq<ModeView>, i: int)
    requires
        0 <= i < offers_of(modes).len(),
    ensures
        exists|m: int, k: int| listed_at(modes, m, k, offers_of(modes)[i]),
{
    let places = listed_places(modes);
    let place = distinct(places)[i];
    assert(distinct(places).contains(place));
    lemma_distinct_keeps_values(places, place);
    let p = choose|p: int| 0 <= p < places.len() && places[p] == place;
    let (m, k) = lemma_position_of_place(modes, p);
    lemma_place_position(modes, m, k);
    assert(listed_at(modes, m, k, offers_of(modes)[i]));
}

} // verus!
