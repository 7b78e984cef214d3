use vstd::prelude::*;

verus! {

/// The grammatical number categories that a plural message can select on.
#[derive(Clone, Copy, Debug, PartialEq, Eq, Structural)]
pub enum PluralCategory {
    Zero,
    One,
    Two,
    Few,
    Many,
    Other,
}

/// The English cardinal rule: one item is `One`, any other count is `Other`.
pub open spec fn english_cardinal(value: i64) -> PluralCategory {
    if value == 1 {
        PluralCategory::One
    } else {
        PluralCategory::Other
    }
}

/// English cardinal plural classifier.
pub fn english_cardinal_classifier(value: i64) -> (r: PluralCategory)
    ensures
        r == english_cardinal(value),
{
    match value {
        1 => PluralCategory::One,
        _ => PluralCategory::Other,
    }
}

/// The rule that maps a number to its plural category.
#[derive(Clone, Copy, Debug, PartialEq, Eq, Structural)]
pub enum Classifier {
    EnglishCardinal,
}

impl Classifier {
    pub open spec fn category(self, value: i64) -> PluralCategory {
        match self {
            Classifier::EnglishCardinal => english_cardinal(value),
        }
    }

    /// The plural category of `value` under this rule.
    pub fn classify(&self, value: i64) -> (r: PluralCategory)
        ensures
            r == self.category(value),
    {
        match self {
            Classifier::EnglishCardinal => english_cardinal_classifier(value),
        }
    }
}

impl Default for Classifier {
    fn default() -> (r: Classifier)
        ensures
            r == Classifier::EnglishCardinal,
    {
        Classifier::EnglishCardinal
    }
}

} // verus!
