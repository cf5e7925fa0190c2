use vstd::prelude::*;

verus! {

/// A thread directory, as found on disk.
#[derive(Clone, Debug)]
pub struct ThreadDir {
    pub path: String,
    /// Whether the directory holds a `thread_messages.json` file.
    pub has_messages: bool,
}

/// A channel directory, as found on disk.
#[derive(Clone, Debug)]
pub struct ChannelDir {
    pub path: String,
    /// Whether the directory holds a `channel_messages.json` file.
    pub has_messages: bool,
    /// The thread directories under its `threads` directory, or `None` when
    /// it has no `threads` directory.
    pub threads: Option<Vec<ThreadDir>>,
}

/// `name` placed under the directory `dir`, with `/` between them.
pub open spec fn path_join(dir: Seq<char>, name: Seq<char>) -> Seq<char> {
    if dir.len() == 0 {
        name
    } else if dir.last() == '/' {
        dir + name
    } else {
        dir + seq!['/'] + name
    }
}

/// Places `name` under the directory `dir`.
pub fn join_path(dir: &str, name: &str) -> (r: String)
    ensures
        r@ == path_join(dir@, name@),
{
    let n = dir.unicode_len();
    if n == 0 {
        return name.to_owned();
    }
    let mut r = dir.to_owned();
    if dir.get_char(n - 1) != '/' {
        let sep = "/";
        proof {
            reveal_strlit("/");
        }
        r.append(sep);
    }
    r.append(name);
    r
}

/// The full paths of the entries `names` of the directory `dir`, in the
/// order in which they were listed.
pub fn walkdir(dir: &str, names: &Vec<String>) -> (r: Vec<String>)
    ensures
        r@.len() == names@.len(),
        forall|k: int| 0 <= k < names@.len() ==> #[trigger] r@[k]@ == path_join(dir@, names@[k]@),
{
    let mut r: Vec<String> = Vec::new();
    let mut k: usize = 0;
    while k < names.len()
        invariant
            k <= names@.len(),
            r@.len() == k,
            forall|q: int| 0 <= q < k ==> #[trigger] r@[q]@ == path_join(dir@, names@[q]@),
        decreases names@.len() - k,
    {
        r.push(join_path(dir, names[k].as_str()));
        k = k + 1;
    }
    r
}

/// The `threads` directory of a channel directory.
pub fn threads_dir(dir: &str) -> (r: String)
    ensures
        r@ == path_join(dir@, "threads"@),
{
    join_path(dir, "threads")
}

/// The messages file of a channel directory.
pub fn channel_messages_file(dir: &str) -> (r: String)
    ensures
        r@ == path_join(dir@, "channel_messages.json"@),
{
    join_path(dir, "channel_messages.json")
}

/// The messages file of a thread directory.
pub fn thread_messages_file(dir: &str) -> (r: String)
    ensures
        r@ == path_join(dir@, "thread_messages.json"@),
{
    join_path(dir, "thread_messages.json")
}

/// The channel files of the first `n` channels that have one.
pub open spec fn channel_part(chs: Seq<ChannelDir>, n: int) -> Seq<Seq<char>>
    decreases n,
{
    if n <= 0 {
        Seq::empty()
    } else {
        let prev = channel_part(chs, n - 1);
        if chs[n - 1].has_messages {
            prev.push(path_join(chs[n - 1].path@, "channel_messages.json"@))
        } else {
            prev
        }
    }
}

/// The thread files of the first `n` threads that have one.
pub open spec fn thread_files(ts: Seq<ThreadDir>, n: int) -> Seq<Seq<char>>
    decreases n,
{
    if n <= 0 {
        Seq::empty()
    } else {
        let prev = thread_files(ts, n - 1);
        if ts[n - 1].has_messages {
            prev.push(path_join(ts[n - 1].path@, "thread_messages.json"@))
        } else {
            prev
        }
    }
}

/// The thread files of the first `n` channels, channel after channel.
pub open spec fn thread_part(chs: Seq<ChannelDir>, n: int) -> Seq<Seq<char>>
    decreases n,
{
    if n <= 0 {
        Seq::empty()
    } else {
        thread_part(chs, n - 1) + match chs[n - 1].threads {
            Some(ts) => thread_files(ts@, ts@.len() as int),
            None => Seq::empty(),
        }
    }
}

/// Every message file of the archive: the channel files first, then the
/// thread files, each in listing order.
pub open spec fn archive_files(chs: Seq<ChannelDir>) -> Seq<Seq<char>> {
    channel_part(chs, chs.len() as int) + thread_part(chs, chs.len() as int)
}

/// The texts of the paths `r`.
pub open spec fn path_views(r: Seq<String>) -> Seq<Seq<char>> {
    r.map_values(|s: String| s@)
}

/// Appends the message files of `threads` to `files`.
fn push_thread_files(files: &mut Vec<String>, threads: &Vec<ThreadDir>)
    ensures
        path_views(final(files)@) == path_views(old(files)@) + thread_files(
            threads@,
            threads@.len() as int,
        ),
{
    let ghost start = path_views(files@);
    let mut k: usize = 0;
    while k < threads.len()
        invariant
            k <= threads@.len(),
            path_views(files@) == start + thread_files(threads@, k as int),
        decreases threads@.len() - k,
    {
        if threads[k].has_messages {
            let ghost before = files@;
            files.push(thread_messages_file(threads[k].path.as_str()));
            assert(path_views(files@) =~= path_views(before).push(files@.last()@));
        }
        k = k + 1;
    }
}

/// The message files to load, given the channel directories found under
/// the archive root: every channel file first, then every thread file.
/// Directories without their messages file are left out.
pub fn channel_files(channels: &Vec<ChannelDir>) -> (r: Vec<String>)
    ensures
        path_views(r@) == archive_files(channels@),
{
    let mut files: Vec<String> = Vec::new();
    let mut k: usize = 0;
    while k < channels.len()
        invariant
            k <= channels@.len(),
            path_views(files@) == channel_part(channels@, k as int),
        decreases channels@.len() - k,
    {
        if channels[k].has_messages {
            let ghost before = files@;
            files.push(channel_messages_file(channels[k].path.as_str()));
            assert(path_views(files@) =~= path_views(before).push(files@.last()@));
        }
        k = k + 1;
    }
    let mut k: usize = 0;
    while k < channels.len()
        invariant
            k <= channels@.len(),
            path_views(files@) == channel_part(channels@, channels@.len() as int) + thread_part(
                channels@,
                k as int,
            ),
        decreases channels@.len() - k,
    {
        let ghost before = path_views(files@);
        if let Some(threads) = &channels[k].threads {
            push_thread_files(&mut files, threads);
        } else {
            assert(path_views(files@) =~= before + Seq::<Seq<char>>::empty());
        }
        assert(path_views(files@) =~= channel_part(channels@, channels@.len() as int) + thread_part(
            channels@,
            k + 1,
        ));
        k = k + 1;
    }
    files
}

} // verus!
