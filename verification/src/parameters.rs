//! The settings of the render worker, picked from a list of named values.

use vstd::prelude::*;

verus! {

/// Where the render worker finds its frames and its jobs.
#[derive(Debug, PartialEq, Eq)]
pub struct Parameters {
    /// The bucket that holds the frames of the simulations.
    pub s3_simultion_bucket: String,
    /// The address of the queue of render jobs.
    pub sqs_render_jobs_url: String,
}

/// The value that `entries` gives to `name`: that of the last entry with
/// this name that has a value. An entry without a name or without a value
/// is passed over.
pub open spec fn lookup(entries: Seq<(Option<String>, Option<String>)>, name: Seq<char>) -> Option<
    Seq<char>,
>
    decreases entries.len(),
{
    if entries.len() == 0 {
        None
    } else {
        match entries.last() {
            (Some(key), Some(value)) if key@ == name => Some(value@),
            _ => lookup(entries.drop_last(), name),
        }
    }
}

impl Parameters {
    /// Picks the settings from `entries`: the bucket is the value named
    /// `bucket_name`, the queue the value named `queue_name`. There are no
    /// settings where either name has no value.
    pub fn from_entries(
        entries: &Vec<(Option<String>, Option<String>)>,
        bucket_name: &String,
        queue_name: &String,
    ) -> (picked: Option<Parameters>)
        ensures
            match picked {
                Some(parameters) => {
                    &&& lookup(entries@, bucket_name@) == Some(parameters.s3_simultion_bucket@)
                    &&& lookup(entries@, queue_name@) == Some(parameters.sqs_render_jobs_url@)
                },
                None => lookup(entries@, bucket_name@).is_none() || lookup(
                    entries@,
                    queue_name@,
                ).is_none(),
            },
    {
        let mut bucket: Option<String> = None;
        let mut queue: Option<String> = None;
        let n = entries.len();
        let mut i: usize = 0;
        while i < n
            invariant
                i <= n,
                n == entries.len(),
                lookup(entries@.take(i as int), bucket_name@) == match bucket {
                    Some(value) => Some(value@),
                    None => None,
                },
                lookup(entries@.take(i as int), queue_name@) == match queue {
                    Some(value) => Some(value@),
                    None => None,
                },
            decreases n - i,
        {
            proof {
                assert(entries@.take(i + 1).drop_last() == entries@.take(i as int));
                assert(entries@.take(i + 1).last() == entries@[i as int]);
            }
            match &entries[i] {
                (Some(key), Some(value)) => {
                    if *key == *bucket_name {
                        bucket = Some(value.clone());
                    }
                    if *key == *queue_name {
                        queue = Some(value.clone());
                    }
                },
                _ => {},
            }
            i += 1;
        }
        proof {
            assert(entries@.take(n as int) == entries@);
        }
        match (bucket, queue) {
            (Some(s3_simultion_bucket), Some(sqs_render_jobs_url)) => Some(
                Parameters { s3_simultion_bucket, sqs_render_jobs_url },
            ),
            _ => None,
        }
    }
}

} // verus!
