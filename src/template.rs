//! The immutable quiz definition: slides, their answer options and the set
//! of correct answers of each.
use vstd::prelude::*;

verus! {

/// One answer option of a slide.
#[derive(Debug, Clone, PartialEq)]
pub struct Answer {
    pub index: usize,
    pub text: String,
}

impl Answer {
    pub fn new(index: usize, text: String) -> (r: Self)
        ensures
            r == (Answer { index, text }),
    {
        Answer { index, text }
    }

    /// A field-by-field copy.
    pub fn copy(&self) -> (r: Self)
        ensures
            r == *self,
    {
        Answer { index: self.index, text: self.text.clone() }
    }
}

/// One question: its time limit in seconds, optional prompt text and image,
/// the answer options and the indices of the correct ones.
#[derive(Debug, Clone, PartialEq)]
pub struct Slide {
    pub duration: u8,
    pub text: Option<String>,
    pub image: Option<String>,
    pub is_multiple_answer: bool,
    pub answers: Vec<Answer>,
    pub correct_answer: Vec<usize>,
}

/// Two slides agree on every field, the vectors element by element.
pub open spec fn same_slide(a: Slide, b: Slide) -> bool {
    &&& a.duration == b.duration
    &&& a.text == b.text
    &&& a.image == b.image
    &&& a.is_multiple_answer == b.is_multiple_answer
    &&& a.answers@ == b.answers@
    &&& a.correct_answer@ == b.correct_answer@
}

/// A submission is correct when it names every correct index; extra
/// indices next to all the correct ones do not make it wrong.
pub open spec fn covers(submitted: Seq<usize>, correct: Seq<usize>) -> bool {
    forall|k: int| 0 <= k < correct.len() ==> submitted.contains(#[trigger] correct[k])
}

/// Decides whether `submitted` names every index of `correct`.
pub fn answer_is_correct(submitted: &Vec<usize>, correct: &Vec<usize>) -> (r: bool)
    ensures
        r == covers(submitted@, correct@),
{
    let mut k: usize = 0;
    while k < correct.len()
        invariant
            k <= correct@.len(),
            forall|m: int| 0 <= m < k ==> submitted@.contains(#[trigger] correct@[m]),
        decreases correct@.len() - k,
    {
        let wanted = correct[k];
        let mut j: usize = 0;
        let mut found = false;
        while j < submitted.len() && !found
            invariant
                j <= submitted@.len(),
                found ==> submitted@.contains(wanted),
                !found ==> forall|m: int| 0 <= m < j ==> submitted@[m] != wanted,
            decreases submitted@.len() - j + (if found { 0int } else { 1int }),
        {
            if submitted[j] == wanted {
                found = true;
            } else {
                j = j + 1;
            }
        }
        if !found {
            assert(!submitted@.contains(wanted));
            return false;
        }
        k = k + 1;
    }
    true
}

/// An element-by-element copy of a list of indices.
pub(crate) fn copy_indices(v: &Vec<usize>) -> (r: Vec<usize>)
    ensures
        r@ == v@,
{
    let mut r: Vec<usize> = Vec::new();
    let mut j: usize = 0;
    while j < v.len()
        invariant
            j <= v@.len(),
            r@ == v@.take(j as int),
        decreases v@.len() - j,
    {
        r.push(v[j]);
        j = j + 1;
        assert(r@ =~= v@.take(j as int));
    }
    assert(r@ =~= v@);
    r
}

impl Slide {
    pub fn new(
        duration: u8,
        text: Option<String>,
        image: Option<String>,
        is_multiple_answer: bool,
        answers: Vec<Answer>,
        correct_answer: Vec<usize>,
    ) -> (r: Self)
        ensures
            r == (Slide { duration, text, image, is_multiple_answer, answers, correct_answer }),
    {
        Slide { duration, text, image, is_multiple_answer, answers, correct_answer }
    }

    /// A field-by-field copy.
    pub fn copy(&self) -> (r: Self)
        ensures
            same_slide(r, *self),
    {
        let text = match &self.text {
            Some(t) => Some(t.clone()),
            None => None,
        };
        let image = match &self.image {
            Some(t) => Some(t.clone()),
            None => None,
        };
        let mut answers: Vec<Answer> = Vec::new();
        let mut i: usize = 0;
        while i < self.answers.len()
            invariant
                i <= self.answers@.len(),
                answers@ == self.answers@.take(i as int),
            decreases self.answers@.len() - i,
        {
            answers.push(self.answers[i].copy());
            i = i + 1;
            assert(answers@ =~= self.answers@.take(i as int));
        }
        assert(answers@ =~= self.answers@);
        let correct_answer = copy_indices(&self.correct_answer);
        Slide {
            duration: self.duration,
            text,
            image,
            is_multiple_answer: self.is_multiple_answer,
            answers,
            correct_answer,
        }
    }
}

/// A quiz: its name, author and ordered slides.
#[derive(Debug)]
pub struct GameTemplate {
    name: String,
    slides: Vec<Slide>,
    author: String,
    author_id: String,
}

impl GameTemplate {
    pub closed spec fn slides(&self) -> Seq<Slide> {
        self.slides@
    }

    pub closed spec fn name(&self) -> Seq<char> {
        self.name@
    }

    pub closed spec fn author(&self) -> Seq<char> {
        self.author@
    }

    pub closed spec fn author_id(&self) -> Seq<char> {
        self.author_id@
    }

    pub fn new(name: String, slides: Vec<Slide>, author: String, author_id: String) -> (r: Self)
        ensures
            r.name() == name@,
            r.slides() == slides@,
            r.author() == author@,
            r.author_id() == author_id@,
    {
        GameTemplate { name, slides, author, author_id }
    }

    pub fn get_slide_ref(&self, index: usize) -> (r: &Slide)
        requires
            index < self.slides().len(),
        ensures
            *r == self.slides()[index as int],
    {
        &self.slides[index]
    }

    pub fn get_slide(&self, index: usize) -> (r: Slide)
        requires
            index < self.slides().len(),
        ensures
            same_slide(r, self.slides()[index as int]),
    {
        self.slides[index].copy()
    }

    pub fn get_slide_count(&self) -> (r: usize)
        ensures
            r == self.slides().len(),
    {
        self.slides.len()
    }
}

} // verus!
