//! Feedback that clients give on advisors.

use vstd::prelude::*;
use crate::codec::{kinds_of, pop_byte, pop_text, pop_word64, values_of, Field, FieldValue, Kind};
use crate::region::RegionId;
use crate::record::{text_view, Record};

verus! {

/// The feedback of one client. It is stored under the client's id, so a
/// client has at most one feedback stored, the last one given.
#[derive(Clone, Debug, PartialEq, Eq)]
pub struct Feedback {
    pub client_id: u64,
    /// The advisor rated. Nothing checks that such an advisor is stored.
    pub advisor_id: u64,
    pub rating: u8,
    pub comments: String,
}

/// What a [`Feedback`] holds, as a mathematical value.
pub struct FeedbackView {
    pub client_id: u64,
    pub advisor_id: u64,
    pub rating: u8,
    pub comments: Seq<char>,
}

impl View for Feedback {
    type V = FeedbackView;

    open spec fn view(&self) -> FeedbackView {
        FeedbackView {
            client_id: self.client_id,
            advisor_id: self.advisor_id,
            rating: self.rating,
            comments: self.comments@,
        }
    }
}

impl Default for Feedback {
    /// The feedback of client 0 on advisor 0, with rating 0 and no
    /// comments.
    fn default() -> (feedback: Self)
        ensures
            feedback@ == (FeedbackView {
                client_id: 0,
                advisor_id: 0,
                rating: 0,
                comments: Seq::empty(),
            }),
    {
        Feedback { client_id: 0, advisor_id: 0, rating: 0, comments: String::new() }
    }
}

impl FeedbackView {
    /// The feedback with each of the given fields put in place of its own,
    /// and every other field as it was.
    pub open spec fn updated(self, rating: Option<u8>, comments: Option<Seq<char>>) -> Self {
        FeedbackView {
            rating: if let Some(r) = rating {
                r
            } else {
                self.rating
            },
            comments: if let Some(c) = comments {
                c
            } else {
                self.comments
            },
            ..self
        }
    }
}

/// An update changes the fields it is given and no others: the client and
/// the advisor stay, and so does each field for which the update holds
/// nothing.
pub proof fn lemma_update_keeps_other_fields(
    feedback: FeedbackView,
    rating: Option<u8>,
    comments: Option<Seq<char>>,
)
    ensures
        ({
            let updated = feedback.updated(rating, comments);
            &&& updated.client_id == feedback.client_id
            &&& updated.advisor_id == feedback.advisor_id
            &&& updated.rating == if let Some(r) = rating {
                r
            } else {
                feedback.rating
            }
            &&& updated.comments == if let Some(c) = comments {
                c
            } else {
                feedback.comments
            }
        }),
        feedback.updated(None, None) == feedback,
{
}

impl Feedback {
    /// Puts each of the given fields in place of the feedback's own and
    /// leaves every other field as it was.
    pub fn update(self, rating: Option<u8>, comments: Option<String>) -> (feedback: Self)
        ensures
            feedback@ == self@.updated(rating, text_view(comments)),
    {
        let mut feedback = self;
        if let Some(r) = rating {
            feedback.rating = r;
        }
        if let Some(c) = comments {
            feedback.comments = c;
        }
        feedback
    }
}

impl Record for Feedback {
    open spec fn tag() -> u8 {
        3
    }

    open spec fn schema() -> Seq<Kind> {
        seq![Kind::Word64, Kind::Word64, Kind::Byte, Kind::Text]
    }

    open spec fn fields(value: FeedbackView) -> Seq<FieldValue> {
        seq![
            FieldValue::Word64(value.client_id),
            FieldValue::Word64(value.advisor_id),
            FieldValue::Byte(value.rating),
            FieldValue::Text(value.comments),
        ]
    }

    open spec fn key(value: FeedbackView) -> u64 {
        value.client_id
    }

    open spec fn label() -> Seq<char> {
        "Feedback"@
    }

    open spec fn region() -> RegionId {
        RegionId::Feedback
    }

    fn tag_byte() -> (tag: u8) {
        3
    }

    fn kinds() -> (kinds: Vec<Kind>) {
        let kinds = vec![Kind::Word64, Kind::Word64, Kind::Byte, Kind::Text];
        assert(kinds@ =~= Self::schema());
        kinds
    }

    fn name() -> (name: &'static str) {
        "Feedback"
    }

    fn region_id() -> (region: RegionId) {
        RegionId::Feedback
    }

    fn key_of(&self) -> (key: u64) {
        self.client_id
    }

    fn to_fields(&self) -> (fields: Vec<Field>) {
        let mut fields: Vec<Field> = Vec::new();
        fields.push(Field::Word64(self.client_id));
        fields.push(Field::Word64(self.advisor_id));
        fields.push(Field::Byte(self.rating));
        fields.push(Field::Text(self.comments.clone()));
        assert(values_of(fields@) =~= Self::fields(self@));
        fields
    }

    fn from_fields(fields: Vec<Field>) -> (record: Self) {
        let mut fields = fields;
        let ghost values = values_of(fields@);
        assert(values.len() == kinds_of(values).len());
        assert(forall|i: int| 0 <= i < 4 ==> kinds_of(values)[i] == Self::schema()[i]);
        assert(forall|i: int| 0 <= i < 4 ==> values[i] == fields@[i]@);
        let comments = pop_text(&mut fields);
        let rating = pop_byte(&mut fields);
        let advisor_id = pop_word64(&mut fields);
        let client_id = pop_word64(&mut fields);
        let record = Feedback { client_id, advisor_id, rating, comments };
        assert(Self::fields(record@) =~= values);
        record
    }

    proof fn lemma_schema(value: FeedbackView) {
        assert(kinds_of(Self::fields(value)) =~= Self::schema());
    }

    proof fn lemma_fields_injective(a: FeedbackView, b: FeedbackView) {
        let fa = Self::fields(a);
        let fb = Self::fields(b);
        assert(fa[0] == fb[0]);
        assert(fa[1] == fb[1]);
        assert(fa[2] == fb[2]);
        assert(fa[3] == fb[3]);
    }
}

} // verus!
