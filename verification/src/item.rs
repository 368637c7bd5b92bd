//! Rows of the lease table as the store delivers them: named attribute
//! values, how a lease is read from and written to them, and how a row that
//! cannot be read is classified.
use vstd::prelude::*;
use vstd::string::*;
use crate::decimal::{decimal_digits, format_u64, lemma_decimal_round_trip, parse_u64, parsed_u64};
use crate::exception::{Exception, ExceptionView};
use crate::lease::{Lease, LeaseView, clone_payload, payload_view};
use crate::shadow::views;

verus! {

/// Mathematical value of an [`AttributeValue`].
pub struct AttributeValueView {
    pub s: Option<Seq<char>>,
    pub n: Option<Seq<char>>,
    pub b: Option<Seq<u8>>,
    pub null: Option<bool>,
}

/// An attribute value: a string in `s`, a number as decimal text in `n`,
/// bytes in `b`, or the null marker.
#[derive(Debug, Clone, PartialEq, Eq)]
pub struct AttributeValue {
    pub s: Option<String>,
    pub n: Option<String>,
    pub b: Option<Vec<u8>>,
    pub null: Option<bool>,
}

/// Mathematical value of an [`Attribute`].
pub struct AttributeView {
    pub name: Seq<char>,
    pub value: AttributeValueView,
}

/// A named attribute value.
#[derive(Debug, Clone, PartialEq, Eq)]
pub struct Attribute {
    pub name: String,
    pub value: AttributeValue,
}

/// Mathematical value of an [`AttributeError`].
pub enum AttributeErrorView {
    InvalidFormat,
    InvalidType,
    MissingField { name: Seq<char> },
}

/// Why a row cannot be read as a lease.
#[derive(Debug, Clone, PartialEq, Eq)]
pub enum AttributeError {
    /// An attribute has the expected type but its text is not well formed.
    InvalidFormat,
    /// An attribute does not have the expected type.
    InvalidType,
    /// The row lacks a required attribute.
    MissingField { name: String },
}

/// View of an optional string.
pub open spec fn text_view(text: Option<String>) -> Option<Seq<char>> {
    match text {
        Some(t) => Some(t@),
        None => None,
    }
}

impl View for AttributeValue {
    type V = AttributeValueView;

    open spec fn view(&self) -> AttributeValueView {
        AttributeValueView {
            s: text_view(self.s),
            n: text_view(self.n),
            b: payload_view(self.b),
            null: self.null,
        }
    }
}

impl View for Attribute {
    type V = AttributeView;

    open spec fn view(&self) -> AttributeView {
        AttributeView { name: self.name@, value: self.value@ }
    }
}

impl View for AttributeError {
    type V = AttributeErrorView;

    open spec fn view(&self) -> AttributeErrorView {
        match self {
            AttributeError::InvalidFormat => AttributeErrorView::InvalidFormat,
            AttributeError::InvalidType => AttributeErrorView::InvalidType,
            AttributeError::MissingField { name } => AttributeErrorView::MissingField {
                name: name@,
            },
        }
    }
}

/// The values of the attributes of a row.
pub open spec fn item_view(item: Seq<Attribute>) -> Seq<AttributeView> {
    item.map_values(|attribute: Attribute| attribute@)
}

/// The values of a list of rows.
pub open spec fn items_view(items: Seq<Vec<Attribute>>) -> Seq<Seq<AttributeView>> {
    items.map_values(|item: Vec<Attribute>| item_view(item@))
}

/// Index of the first attribute named `name`, or `item.len()`.
pub open spec fn attr_position(item: Seq<AttributeView>, name: Seq<char>) -> int
    decreases item.len(),
{
    if item.len() == 0 {
        0
    } else if item.first().name == name {
        0
    } else {
        1 + attr_position(item.drop_first(), name)
    }
}

/// The value of the first attribute named `name`, if any.
pub open spec fn find_attr(item: Seq<AttributeView>, name: Seq<char>) -> Option<AttributeValueView> {
    if attr_position(item, name) < item.len() {
        Some(item[attr_position(item, name)].value)
    } else {
        None
    }
}

/// The string an attribute value holds.
pub open spec fn decoded_string(value: AttributeValueView) -> Result<Seq<char>, AttributeErrorView> {
    match value.s {
        Some(text) => Ok(text),
        None => Err(AttributeErrorView::InvalidType),
    }
}

/// The unsigned number an attribute value holds.
pub open spec fn decoded_u64(value: AttributeValueView) -> Result<u64, AttributeErrorView> {
    match value.n {
        Some(text) => match parsed_u64(text) {
            Some(number) => Ok(number),
            None => Err(AttributeErrorView::InvalidFormat),
        },
        None => Err(AttributeErrorView::InvalidType),
    }
}

/// The optional string an attribute value holds: none for the null marker.
pub open spec fn decoded_optional(value: AttributeValueView) -> Result<
    Option<Seq<char>>,
    AttributeErrorView,
> {
    if value.null == Some(true) {
        Ok(None)
    } else {
        match decoded_string(value) {
            Ok(text) => Ok(Some(text)),
            Err(error) => Err(error),
        }
    }
}

/// The owner that a row records: none when the row has no owner attribute.
pub open spec fn decoded_owner(item: Seq<AttributeView>) -> Result<
    Option<Seq<char>>,
    AttributeErrorView,
> {
    match find_attr(item, "lease_owner"@) {
        Some(value) => decoded_optional(value),
        None => Ok(None),
    }
}

/// The checkpoint that a row records: none when the row has no checkpoint
/// attribute or marks it null.
pub open spec fn decoded_checkpoint(item: Seq<AttributeView>) -> Result<
    Option<Seq<u8>>,
    AttributeErrorView,
> {
    match find_attr(item, "checkpoint"@) {
        Some(value) => if value.null == Some(true) {
            Ok(None)
        } else {
            match value.b {
                Some(bytes) => Ok(Some(bytes)),
                None => Err(AttributeErrorView::InvalidType),
            }
        },
        None => Ok(None),
    }
}

/// The lease that a row holds. The key and the counter are required, the
/// owner and the checkpoint are not; the lease is not yet timed locally. The
/// attributes are read in the order key, owner, counter, checkpoint, and the
/// first that cannot be read decides the error.
pub open spec fn decoded_lease(item: Seq<AttributeView>) -> Result<LeaseView, AttributeErrorView> {
    match find_attr(item, "lease_key"@) {
        None => Err(AttributeErrorView::MissingField { name: "lease_key"@ }),
        Some(key_value) => match decoded_string(key_value) {
            Err(error) => Err(error),
            Ok(lease_key) => match decoded_owner(item) {
                Err(error) => Err(error),
                Ok(lease_owner) => match find_attr(item, "lease_counter"@) {
                    None => Err(AttributeErrorView::MissingField { name: "lease_counter"@ }),
                    Some(counter_value) => match decoded_u64(counter_value) {
                        Err(error) => Err(error),
                        Ok(lease_counter) => match decoded_checkpoint(item) {
                            Err(error) => Err(error),
                            Ok(checkpoint) => Ok(
                                LeaseView {
                                    lease_key,
                                    lease_owner,
                                    last_renewal_nanos: 0,
                                    lease_counter,
                                    checkpoint,
                                },
                            ),
                        },
                    },
                },
            },
        },
    }
}

/// The row that holds a lease: the key, the owner or the null marker in its
/// place, the counter, and the checkpoint where the lease has one.
pub open spec fn encoded_lease(lease: LeaseView) -> Seq<AttributeView> {
    let fixed = seq![
        AttributeView {
            name: "lease_key"@,
            value: AttributeValueView { s: Some(lease.lease_key), n: None, b: None, null: None },
        },
        AttributeView {
            name: "lease_owner"@,
            value: match lease.lease_owner {
                Some(owner) => AttributeValueView { s: Some(owner), n: None, b: None, null: None },
                None => AttributeValueView { s: None, n: None, b: None, null: Some(true) },
            },
        },
        AttributeView {
            name: "lease_counter"@,
            value: AttributeValueView {
                s: None,
                n: Some(decimal_digits(lease.lease_counter as nat)),
                b: None,
                null: None,
            },
        },
    ];
    match lease.checkpoint {
        Some(bytes) => fixed.push(
            AttributeView {
                name: "checkpoint"@,
                value: AttributeValueView { s: None, n: None, b: Some(bytes), null: None },
            },
        ),
        None => fixed,
    }
}

/// How a row that cannot be read is reported: as a failure that trying again
/// will not mend, with a message that says what is wrong.
pub open spec fn classified(error: AttributeErrorView) -> ExceptionView {
    ExceptionView::NonRetryable(
        match error {
            AttributeErrorView::InvalidFormat => "Attribute contains an invalid format"@,
            AttributeErrorView::InvalidType => "Attribute contains invalid type"@,
            AttributeErrorView::MissingField { name } => "Attribute '"@ + name + "' was missing"@,
        },
    )
}

/// The leases of a list of rows, or the error of the first row that cannot
/// be read.
pub open spec fn all_decoded(items: Seq<Seq<AttributeView>>) -> Result<
    Seq<LeaseView>,
    AttributeErrorView,
>
    decreases items.len(),
{
    if items.len() == 0 {
        Ok(Seq::empty())
    } else {
        match all_decoded(items.drop_last()) {
            Err(error) => Err(error),
            Ok(leases) => match decoded_lease(items.last()) {
                Ok(lease) => Ok(leases.push(lease)),
                Err(error) => Err(error),
            },
        }
    }
}

/// The leases of the rows that can be read, in order.
pub open spec fn readable(items: Seq<Seq<AttributeView>>) -> Seq<LeaseView>
    decreases items.len(),
{
    if items.len() == 0 {
        Seq::empty()
    } else {
        match decoded_lease(items.last()) {
            Ok(lease) => readable(items.drop_last()).push(lease),
            Err(_) => readable(items.drop_last()),
        }
    }
}

/// The reports on the rows that cannot be read, in order.
pub open spec fn unreadable(items: Seq<Seq<AttributeView>>) -> Seq<ExceptionView>
    decreases items.len(),
{
    if items.len() == 0 {
        Seq::empty()
    } else {
        match decoded_lease(items.last()) {
            Ok(_) => unreadable(items.drop_last()),
            Err(error) => unreadable(items.drop_last()).push(classified(error)),
        }
    }
}

/// `attr_position` is the least index with the name.
pub proof fn lemma_attr_position(item: Seq<AttributeView>, name: Seq<char>, i: int)
    requires
        0 <= i <= item.len(),
        forall|j: int| 0 <= j < i ==> (#[trigger] item[j]).name != name,
        i < item.len() ==> item[i].name == name,
    ensures
        attr_position(item, name) == i,
    decreases i,
{
    if i > 0 {
        let rest = item.drop_first();
        assert(item[0].name != name);
        assert forall|j: int| 0 <= j < i - 1 implies (#[trigger] rest[j]).name != name by {
            assert(rest[j] == item[j + 1]);
        }
        lemma_attr_position(rest, name, i - 1);
    }
}

/// Finds the first attribute named `name`.
pub fn get_attr<'a>(item: &'a Vec<Attribute>, name: &str) -> (found: Option<&'a AttributeValue>)
    ensures
        match found {
            Some(value) => find_attr(item_view(item@), name@) == Some(value@),
            None => find_attr(item_view(item@), name@) is None,
        },
{
    let wanted = String::from_str(name);
    let mut i: usize = 0;
    while i < item.len()
        invariant
            i <= item.len(),
            wanted@ == name@,
            forall|j: int| 0 <= j < i ==> (#[trigger] item_view(item@)[j]).name != name@,
        decreases item.len() - i,
    {
        if item[i].name == wanted {
            proof {
                assert(item_view(item@)[i as int].name == name@);
                lemma_attr_position(item_view(item@), name@, i as int);
            }
            return Some(&item[i].value);
        }
        i += 1;
    }
    proof {
        lemma_attr_position(item_view(item@), name@, item.len() as int);
    }
    None
}

/// Reads a string from an attribute value.
pub fn string_from_attr(value: &AttributeValue) -> (text: Result<String, AttributeError>)
    ensures
        match text {
            Ok(t) => decoded_string(value@) == Ok::<Seq<char>, AttributeErrorView>(t@),
            Err(e) => decoded_string(value@) == Err::<Seq<char>, AttributeErrorView>(e@),
        },
{
    match &value.s {
        Some(text) => Ok(text.clone()),
        None => Err(AttributeError::InvalidType),
    }
}

/// Reads an unsigned number from an attribute value.
pub fn u64_from_attr(value: &AttributeValue) -> (number: Result<u64, AttributeError>)
    ensures
        match number {
            Ok(n) => decoded_u64(value@) == Ok::<u64, AttributeErrorView>(n),
            Err(e) => decoded_u64(value@) == Err::<u64, AttributeErrorView>(e@),
        },
{
    match &value.n {
        Some(text) => match parse_u64(text.as_str()) {
            Some(number) => Ok(number),
            None => Err(AttributeError::InvalidFormat),
        },
        None => Err(AttributeError::InvalidType),
    }
}

/// Reads a lease from a row.
pub fn lease_from_attrs(item: &Vec<Attribute>) -> (lease: Result<Lease, AttributeError>)
    ensures
        match lease {
            Ok(l) => decoded_lease(item_view(item@)) == Ok::<LeaseView, AttributeErrorView>(l@),
            Err(e) => decoded_lease(item_view(item@)) == Err::<LeaseView, AttributeErrorView>(e@),
        },
{
    let lease_key = match get_attr(item, "lease_key") {
        None => {
            return Err(AttributeError::MissingField { name: String::from_str("lease_key") });
        },
        Some(value) => match string_from_attr(value) {
            Ok(text) => text,
            Err(error) => {
                return Err(error);
            },
        },
    };
    let lease_owner = match get_attr(item, "lease_owner") {
        None => None,
        Some(value) => {
            let is_null = match value.null {
                Some(flag) => flag,
                None => false,
            };
            if is_null {
                None
            } else {
                match string_from_attr(value) {
                    Ok(text) => Some(text),
                    Err(error) => {
                        return Err(error);
                    },
                }
            }
        },
    };
    let lease_counter = match get_attr(item, "lease_counter") {
        None => {
            return Err(AttributeError::MissingField { name: String::from_str("lease_counter") });
        },
        Some(value) => match u64_from_attr(value) {
            Ok(number) => number,
            Err(error) => {
                return Err(error);
            },
        },
    };
    let checkpoint = match get_attr(item, "checkpoint") {
        None => None,
        Some(value) => {
            let is_null = match value.null {
                Some(flag) => flag,
                None => false,
            };
            if is_null {
                None
            } else {
                match &value.b {
                    Some(_) => clone_payload(&value.b),
                    None => {
                        return Err(AttributeError::InvalidType);
                    },
                }
            }
        },
    };
    Ok(Lease { lease_key, lease_owner, last_renewal_nanos: 0, lease_counter, checkpoint })
}

/// Writes a lease as a row.
pub fn lease_to_attrs(lease: &Lease) -> (item: Vec<Attribute>)
    ensures
        item_view(item@) == encoded_lease(lease@),
{
    let key = Attribute {
        name: String::from_str("lease_key"),
        value: AttributeValue { s: Some(lease.lease_key.clone()), n: None, b: None, null: None },
    };
    let owner = Attribute {
        name: String::from_str("lease_owner"),
        value: match &lease.lease_owner {
            Some(name) => AttributeValue { s: Some(name.clone()), n: None, b: None, null: None },
            None => AttributeValue { s: None, n: None, b: None, null: Some(true) },
        },
    };
    let counter = Attribute {
        name: String::from_str("lease_counter"),
        value: AttributeValue {
            s: None,
            n: Some(format_u64(lease.lease_counter)),
            b: None,
            null: None,
        },
    };
    let mut item: Vec<Attribute> = Vec::new();
    item.push(key);
    item.push(owner);
    item.push(counter);
    match &lease.checkpoint {
        Some(_) => {
            item.push(
                Attribute {
                    name: String::from_str("checkpoint"),
                    value: AttributeValue {
                        s: None,
                        n: None,
                        b: clone_payload(&lease.checkpoint),
                        null: None,
                    },
                },
            );
        },
        None => {},
    }
    assert(item_view(item@) =~= encoded_lease(lease@));
    item
}

/// Reports a row that cannot be read.
pub fn classify(error: AttributeError) -> (report: Exception)
    ensures
        report@ == classified(error@),
{
    match error {
        AttributeError::InvalidFormat => Exception::NonRetryable(
            String::from_str("Attribute contains an invalid format"),
        ),
        AttributeError::InvalidType => Exception::NonRetryable(
            String::from_str("Attribute contains invalid type"),
        ),
        AttributeError::MissingField { name } => {
            let mut message = String::from_str("Attribute '");
            message.append(name.as_str());
            message.append("' was missing");
            Exception::NonRetryable(message)
        },
    }
}

/// Reads the leases of a scan. The scan fails as a whole on the first row
/// that cannot be read.
pub fn list_all_leases(items: &Vec<Vec<Attribute>>) -> (leases: Result<Vec<Lease>, Exception>)
    ensures
        match leases {
            Ok(all) => all_decoded(items_view(items@)) == Ok::<Seq<LeaseView>, AttributeErrorView>(
                views(all@),
            ),
            Err(report) => all_decoded(items_view(items@)) is Err && report@ == classified(
                all_decoded(items_view(items@))->Err_0,
            ),
        },
{
    let ghost rows = items_view(items@);
    let mut all_leases: Vec<Lease> = Vec::new();
    let mut i: usize = 0;
    assert(views(all_leases@) =~= Seq::<LeaseView>::empty());
    while i < items.len()
        invariant
            i <= items.len(),
            rows == items_view(items@),
            all_decoded(rows.take(i as int)) == Ok::<Seq<LeaseView>, AttributeErrorView>(
                views(all_leases@),
            ),
        decreases items.len() - i,
    {
        proof {
            assert(rows.take(i + 1).drop_last() =~= rows.take(i as int));
            assert(rows.take(i + 1).last() == item_view(items[i as int]@));
        }
        match lease_from_attrs(&items[i]) {
            Ok(lease) => {
                let ghost before = views(all_leases@);
                let ghost value = lease@;
                all_leases.push(lease);
                assert(views(all_leases@) =~= before.push(value));
            },
            Err(error) => {
                proof {
                    lemma_first_error(rows, i as int);
                }
                return Err(classify(error));
            },
        }
        i += 1;
    }
    assert(rows.take(items.len() as int) =~= rows);
    Ok(all_leases)
}

/// When the rows before row `i` can all be read and row `i` cannot, reading
/// all rows fails with the error of row `i`.
pub proof fn lemma_first_error(rows: Seq<Seq<AttributeView>>, i: int)
    requires
        0 <= i < rows.len(),
        all_decoded(rows.take(i)) is Ok,
        decoded_lease(rows[i]) is Err,
    ensures
        all_decoded(rows) == Err::<Seq<LeaseView>, AttributeErrorView>(
            decoded_lease(rows[i])->Err_0,
        ),
    decreases rows.len(),
{
    if i == rows.len() - 1 {
        assert(rows.drop_last() =~= rows.take(i));
    } else {
        let front = rows.drop_last();
        assert(front.take(i) =~= rows.take(i));
        assert(front[i] == rows[i]);
        lemma_first_error(front, i);
    }
}

/// What a scan yields when rows that cannot be read are set aside.
pub struct ScanOutcome {
    /// The leases of the rows that can be read.
    pub leases: Vec<Lease>,
    /// A report for each row that cannot be read.
    pub rejected: Vec<Exception>,
}

/// Reads the leases of a scan, setting aside each row that cannot be read
/// with a report of what is wrong with it.
pub fn decode_leases(items: &Vec<Vec<Attribute>>) -> (outcome: ScanOutcome)
    ensures
        views(outcome.leases@) == readable(items_view(items@)),
        outcome.rejected@.map_values(|e: Exception| e@) == unreadable(items_view(items@)),
{
    let ghost rows = items_view(items@);
    let mut leases: Vec<Lease> = Vec::new();
    let mut rejected: Vec<Exception> = Vec::new();
    let mut i: usize = 0;
    assert(views(leases@) =~= Seq::<LeaseView>::empty());
    assert(rejected@.map_values(|e: Exception| e@) =~= Seq::<ExceptionView>::empty());
    while i < items.len()
        invariant
            i <= items.len(),
            rows == items_view(items@),
            views(leases@) == readable(rows.take(i as int)),
            rejected@.map_values(|e: Exception| e@) == unreadable(rows.take(i as int)),
        decreases items.len() - i,
    {
        proof {
            assert(rows.take(i + 1).drop_last() =~= rows.take(i as int));
            assert(rows.take(i + 1).last() == item_view(items[i as int]@));
        }
        match lease_from_attrs(&items[i]) {
            Ok(lease) => {
                let ghost before = views(leases@);
                let ghost value = lease@;
                leases.push(lease);
                assert(views(leases@) =~= before.push(value));
            },
            Err(error) => {
                let ghost before = rejected@.map_values(|e: Exception| e@);
                let report = classify(error);
                let ghost value = report@;
                rejected.push(report);
                assert(rejected@.map_values(|e: Exception| e@) =~= before.push(value));
            },
        }
        i += 1;
    }
    assert(rows.take(items.len() as int) =~= rows);
    ScanOutcome { leases, rejected }
}

/// Writing a lease as a row and reading the row back gives the lease, but
/// for the local renewal time, which a row does not hold.
pub proof fn lemma_lease_round_trip(lease: LeaseView)
    ensures
        decoded_lease(encoded_lease(lease)) == Ok::<LeaseView, AttributeErrorView>(
            lease.with_renewal(0),
        ),
{
    reveal_strlit("lease_key");
    reveal_strlit("lease_owner");
    reveal_strlit("lease_counter");
    reveal_strlit("checkpoint");
    let row = encoded_lease(lease);
    assert("lease_key"@.len() == 9);
    assert("lease_owner"@.len() == 11);
    assert("lease_counter"@.len() == 13);
    assert("checkpoint"@.len() == 10);
    lemma_attr_position(row, "lease_key"@, 0);
    lemma_attr_position(row, "lease_owner"@, 1);
    lemma_attr_position(row, "lease_counter"@, 2);
    lemma_attr_position(row, "checkpoint"@, 3);
    lemma_decimal_round_trip(lease.lease_counter);
}

} // verus!
