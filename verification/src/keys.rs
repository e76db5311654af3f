//! The names of the fields that the schema uses, and the fact that no two
//! of them are the same.

use vstd::prelude::*;

verus! {

/// The place of a field name in the list of the schema's names; -1 for any other string.
pub closed spec fn key_rank(s: Seq<char>) -> int {
    if s == "id"@ {
        0
    } else if s == "label"@ {
        1
    } else if s == "group"@ {
        2
    } else if s == "text"@ {
        3
    } else if s == "char"@ {
        4
    } else if s == "kind"@ {
        5
    } else if s == "index"@ {
        6
    } else if s == "meta"@ {
        7
    } else if s == "_rev"@ {
        8
    } else if s == "_tags"@ {
        9
    } else if s == "_attachedTo"@ {
        10
    } else if s == "_attachmentType"@ {
        11
    } else if s == "_merged"@ {
        12
    } else if s == "_mergedInto"@ {
        13
    } else if s == "_mergedFrom"@ {
        14
    } else if s == "_mergedAt"@ {
        15
    } else if s == "_split"@ {
        16
    } else if s == "_splitInto"@ {
        17
    } else if s == "_splitFrom"@ {
        18
    } else if s == "_splitIndex"@ {
        19
    } else if s == "_splitAt"@ {
        20
    } else if s == "tokenId"@ {
        21
    } else if s == "tokenSnapshot"@ {
        22
    } else if s == "x"@ {
        23
    } else if s == "y"@ {
        24
    } else if s == "faceUp"@ {
        25
    } else if s == "ts"@ {
        26
    } else if s == "reversed"@ {
        27
    } else if s == "tags"@ {
        28
    } else if s == "stack"@ {
        29
    } else if s == "drawn"@ {
        30
    } else if s == "discards"@ {
        31
    } else if s == "stackIds"@ {
        32
    } else if s == "tokens"@ {
        33
    } else if s == "burned"@ {
        34
    } else if s == "seed"@ {
        35
    } else if s == "reshufflePolicy"@ {
        36
    } else if s == "threshold"@ {
        37
    } else if s == "mode"@ {
        38
    } else if s == "turn"@ {
        39
    } else if s == "running"@ {
        40
    } else if s == "activeAgentIndex"@ {
        41
    } else if s == "phase"@ {
        42
    } else if s == "maxTurns"@ {
        43
    } else if s == "fired"@ {
        44
    } else if s == "zones"@ {
        45
    } else if s == "source"@ {
        46
    } else if s == "gameLoop"@ {
        47
    } else if s == "rules"@ {
        48
    } else if s == "agents"@ {
        49
    } else if s == "version"@ {
        50
    } else if s == "nullifiers"@ {
        51
    } else if s == "_attachments"@ {
        52
    } else {
        -1
    }
}

/// Each name of the schema has a rank of its own, so no two names are equal.
pub proof fn lemma_keys()
    ensures
        key_rank("id"@) == 0,
        key_rank("label"@) == 1,
        key_rank("group"@) == 2,
        key_rank("text"@) == 3,
        key_rank("char"@) == 4,
        key_rank("kind"@) == 5,
        key_rank("index"@) == 6,
        key_rank("meta"@) == 7,
        key_rank("_rev"@) == 8,
        key_rank("_tags"@) == 9,
        key_rank("_attachedTo"@) == 10,
        key_rank("_attachmentType"@) == 11,
        key_rank("_merged"@) == 12,
        key_rank("_mergedInto"@) == 13,
        key_rank("_mergedFrom"@) == 14,
        key_rank("_mergedAt"@) == 15,
        key_rank("_split"@) == 16,
        key_rank("_splitInto"@) == 17,
        key_rank("_splitFrom"@) == 18,
        key_rank("_splitIndex"@) == 19,
        key_rank("_splitAt"@) == 20,
        key_rank("tokenId"@) == 21,
        key_rank("tokenSnapshot"@) == 22,
        key_rank("x"@) == 23,
        key_rank("y"@) == 24,
        key_rank("faceUp"@) == 25,
        key_rank("ts"@) == 26,
        key_rank("reversed"@) == 27,
        key_rank("tags"@) == 28,
        key_rank("stack"@) == 29,
        key_rank("drawn"@) == 30,
        key_rank("discards"@) == 31,
        key_rank("stackIds"@) == 32,
        key_rank("tokens"@) == 33,
        key_rank("burned"@) == 34,
        key_rank("seed"@) == 35,
        key_rank("reshufflePolicy"@) == 36,
        key_rank("threshold"@) == 37,
        key_rank("mode"@) == 38,
        key_rank("turn"@) == 39,
        key_rank("running"@) == 40,
        key_rank("activeAgentIndex"@) == 41,
        key_rank("phase"@) == 42,
        key_rank("maxTurns"@) == 43,
        key_rank("fired"@) == 44,
        key_rank("zones"@) == 45,
        key_rank("source"@) == 46,
        key_rank("gameLoop"@) == 47,
        key_rank("rules"@) == 48,
        key_rank("agents"@) == 49,
        key_rank("version"@) == 50,
        key_rank("nullifiers"@) == 51,
        key_rank("_attachments"@) == 52,
{
    reveal_strlit("id");
    reveal_strlit("label");
    reveal_strlit("group");
    reveal_strlit("text");
    reveal_strlit("char");
    reveal_strlit("kind");
    reveal_strlit("index");
    reveal_strlit("meta");
    reveal_strlit("_rev");
    reveal_strlit("_tags");
    reveal_strlit("_attachedTo");
    reveal_strlit("_attachmentType");
    reveal_strlit("_merged");
    reveal_strlit("_mergedInto");
    reveal_strlit("_mergedFrom");
    reveal_strlit("_mergedAt");
    reveal_strlit("_split");
    reveal_strlit("_splitInto");
    reveal_strlit("_splitFrom");
    reveal_strlit("_splitIndex");
    reveal_strlit("_splitAt");
    reveal_strlit("tokenId");
    reveal_strlit("tokenSnapshot");
    reveal_strlit("x");
    reveal_strlit("y");
    reveal_strlit("faceUp");
    reveal_strlit("ts");
    reveal_strlit("reversed");
    reveal_strlit("tags");
    reveal_strlit("stack");
    reveal_strlit("drawn");
    reveal_strlit("discards");
    reveal_strlit("stackIds");
    reveal_strlit("tokens");
    reveal_strlit("burned");
    reveal_strlit("seed");
    reveal_strlit("reshufflePolicy");
    reveal_strlit("threshold");
    reveal_strlit("mode");
    reveal_strlit("turn");
    reveal_strlit("running");
    reveal_strlit("activeAgentIndex");
    reveal_strlit("phase");
    reveal_strlit("maxTurns");
    reveal_strlit("fired");
    reveal_strlit("zones");
    reveal_strlit("source");
    reveal_strlit("gameLoop");
    reveal_strlit("rules");
    reveal_strlit("agents");
    reveal_strlit("version");
    reveal_strlit("nullifiers");
    reveal_strlit("_attachments");
    // a name is told from every other by its length and its letters
    assert("id"@.len() == 2 && "id"@[0] == 'i' && "id"@[1] == 'd');
    assert("label"@.len() == 5 && "label"@[0] == 'l' && "label"@[1] == 'a' && "label"@[2] == 'b' && "label"@[3] == 'e' && "label"@[4] == 'l');
    assert("group"@.len() == 5 && "group"@[0] == 'g' && "group"@[1] == 'r' && "group"@[2] == 'o' && "group"@[3] == 'u' && "group"@[4] == 'p');
    assert("text"@.len() == 4 && "text"@[0] == 't' && "text"@[1] == 'e' && "text"@[2] == 'x' && "text"@[3] == 't');
    assert("char"@.len() == 4 && "char"@[0] == 'c' && "char"@[1] == 'h' && "char"@[2] == 'a' && "char"@[3] == 'r');
    assert("kind"@.len() == 4 && "kind"@[0] == 'k' && "kind"@[1] == 'i' && "kind"@[2] == 'n' && "kind"@[3] == 'd');
    assert("index"@.len() == 5 && "index"@[0] == 'i' && "index"@[1] == 'n' && "index"@[2] == 'd' && "index"@[3] == 'e' && "index"@[4] == 'x');
    assert("meta"@.len() == 4 && "meta"@[0] == 'm' && "meta"@[1] == 'e' && "meta"@[2] == 't' && "meta"@[3] == 'a');
    assert("_rev"@.len() == 4 && "_rev"@[0] == '_' && "_rev"@[1] == 'r' && "_rev"@[2] == 'e' && "_rev"@[3] == 'v');
    assert("_tags"@.len() == 5 && "_tags"@[0] == '_' && "_tags"@[1] == 't' && "_tags"@[2] == 'a' && "_tags"@[3] == 'g' && "_tags"@[4] == 's');
    assert("_attachedTo"@.len() == 11 && "_attachedTo"@[0] == '_' && "_attachedTo"@[1] == 'a' && "_attachedTo"@[2] == 't' && "_attachedTo"@[3] == 't' && "_attachedTo"@[4] == 'a' && "_attachedTo"@[5] == 'c' && "_attachedTo"@[6] == 'h' && "_attachedTo"@[7] == 'e' && "_attachedTo"@[8] == 'd' && "_attachedTo"@[9] == 'T' && "_attachedTo"@[10] == 'o');
    assert("_attachmentType"@.len() == 15 && "_attachmentType"@[0] == '_' && "_attachmentType"@[1] == 'a' && "_attachmentType"@[2] == 't' && "_attachmentType"@[3] == 't' && "_attachmentType"@[4] == 'a' && "_attachmentType"@[5] == 'c' && "_attachmentType"@[6] == 'h' && "_attachmentType"@[7] == 'm' && "_attachmentType"@[8] == 'e' && "_attachmentType"@[9] == 'n' && "_attachmentType"@[10] == 't' && "_attachmentType"@[11] == 'T' && "_attachmentType"@[12] == 'y' && "_attachmentType"@[13] == 'p' && "_attachmentType"@[14] == 'e');
    assert("_merged"@.len() == 7 && "_merged"@[0] == '_' && "_merged"@[1] == 'm' && "_merged"@[2] == 'e' && "_merged"@[3] == 'r' && "_merged"@[4] == 'g' && "_merged"@[5] == 'e' && "_merged"@[6] == 'd');
    assert("_mergedInto"@.len() == 11 && "_mergedInto"@[0] == '_' && "_mergedInto"@[1] == 'm' && "_mergedInto"@[2] == 'e' && "_mergedInto"@[3] == 'r' && "_mergedInto"@[4] == 'g' && "_mergedInto"@[5] == 'e' && "_mergedInto"@[6] == 'd' && "_mergedInto"@[7] == 'I' && "_mergedInto"@[8] == 'n' && "_mergedInto"@[9] == 't' && "_mergedInto"@[10] == 'o');
    assert("_mergedFrom"@.len() == 11 && "_mergedFrom"@[0] == '_' && "_mergedFrom"@[1] == 'm' && "_mergedFrom"@[2] == 'e' && "_mergedFrom"@[3] == 'r' && "_mergedFrom"@[4] == 'g' && "_mergedFrom"@[5] == 'e' && "_mergedFrom"@[6] == 'd' && "_mergedFrom"@[7] == 'F' && "_mergedFrom"@[8] == 'r' && "_mergedFrom"@[9] == 'o' && "_mergedFrom"@[10] == 'm');
    assert("_mergedAt"@.len() == 9 && "_mergedAt"@[0] == '_' && "_mergedAt"@[1] == 'm' && "_mergedAt"@[2] == 'e' && "_mergedAt"@[3] == 'r' && "_mergedAt"@[4] == 'g' && "_mergedAt"@[5] == 'e' && "_mergedAt"@[6] == 'd' && "_mergedAt"@[7] == 'A' && "_mergedAt"@[8] == 't');
    assert("_split"@.len() == 6 && "_split"@[0] == '_' && "_split"@[1] == 's' && "_split"@[2] == 'p' && "_split"@[3] == 'l' && "_split"@[4] == 'i' && "_split"@[5] == 't');
    assert("_splitInto"@.len() == 10 && "_splitInto"@[0] == '_' && "_splitInto"@[1] == 's' && "_splitInto"@[2] == 'p' && "_splitInto"@[3] == 'l' && "_splitInto"@[4] == 'i' && "_splitInto"@[5] == 't' && "_splitInto"@[6] == 'I' && "_splitInto"@[7] == 'n' && "_splitInto"@[8] == 't' && "_splitInto"@[9] == 'o');
    assert("_splitFrom"@.len() == 10 && "_splitFrom"@[0] == '_' && "_splitFrom"@[1] == 's' && "_splitFrom"@[2] == 'p' && "_splitFrom"@[3] == 'l' && "_splitFrom"@[4] == 'i' && "_splitFrom"@[5] == 't' && "_splitFrom"@[6] == 'F' && "_splitFrom"@[7] == 'r' && "_splitFrom"@[8] == 'o' && "_splitFrom"@[9] == 'm');
    assert("_splitIndex"@.len() == 11 && "_splitIndex"@[0] == '_' && "_splitIndex"@[1] == 's' && "_splitIndex"@[2] == 'p' && "_splitIndex"@[3] == 'l' && "_splitIndex"@[4] == 'i' && "_splitIndex"@[5] == 't' && "_splitIndex"@[6] == 'I' && "_splitIndex"@[7] == 'n' && "_splitIndex"@[8] == 'd' && "_splitIndex"@[9] == 'e' && "_splitIndex"@[10] == 'x');
    assert("_splitAt"@.len() == 8 && "_splitAt"@[0] == '_' && "_splitAt"@[1] == 's' && "_splitAt"@[2] == 'p' && "_splitAt"@[3] == 'l' && "_splitAt"@[4] == 'i' && "_splitAt"@[5] == 't' && "_splitAt"@[6] == 'A' && "_splitAt"@[7] == 't');
    assert("tokenId"@.len() == 7 && "tokenId"@[0] == 't' && "tokenId"@[1] == 'o' && "tokenId"@[2] == 'k' && "tokenId"@[3] == 'e' && "tokenId"@[4] == 'n' && "tokenId"@[5] == 'I' && "tokenId"@[6] == 'd');
    assert("tokenSnapshot"@.len() == 13 && "tokenSnapshot"@[0] == 't' && "tokenSnapshot"@[1] == 'o' && "tokenSnapshot"@[2] == 'k' && "tokenSnapshot"@[3] == 'e' && "tokenSnapshot"@[4] == 'n' && "tokenSnapshot"@[5] == 'S' && "tokenSnapshot"@[6] == 'n' && "tokenSnapshot"@[7] == 'a' && "tokenSnapshot"@[8] == 'p' && "tokenSnapshot"@[9] == 's' && "tokenSnapshot"@[10] == 'h' && "tokenSnapshot"@[11] == 'o' && "tokenSnapshot"@[12] == 't');
    assert("x"@.len() == 1 && "x"@[0] == 'x');
    assert("y"@.len() == 1 && "y"@[0] == 'y');
    assert("faceUp"@.len() == 6 && "faceUp"@[0] == 'f' && "faceUp"@[1] == 'a' && "faceUp"@[2] == 'c' && "faceUp"@[3] == 'e' && "faceUp"@[4] == 'U' && "faceUp"@[5] == 'p');
    assert("ts"@.len() == 2 && "ts"@[0] == 't' && "ts"@[1] == 's');
    assert("reversed"@.len() == 8 && "reversed"@[0] == 'r' && "reversed"@[1] == 'e' && "reversed"@[2] == 'v' && "reversed"@[3] == 'e' && "reversed"@[4] == 'r' && "reversed"@[5] == 's' && "reversed"@[6] == 'e' && "reversed"@[7] == 'd');
    assert("tags"@.len() == 4 && "tags"@[0] == 't' && "tags"@[1] == 'a' && "tags"@[2] == 'g' && "tags"@[3] == 's');
    assert("stack"@.len() == 5 && "stack"@[0] == 's' && "stack"@[1] == 't' && "stack"@[2] == 'a' && "stack"@[3] == 'c' && "stack"@[4] == 'k');
    assert("drawn"@.len() == 5 && "drawn"@[0] == 'd' && "drawn"@[1] == 'r' && "drawn"@[2] == 'a' && "drawn"@[3] == 'w' && "drawn"@[4] == 'n');
    assert("discards"@.len() == 8 && "discards"@[0] == 'd' && "discards"@[1] == 'i' && "discards"@[2] == 's' && "discards"@[3] == 'c' && "discards"@[4] == 'a' && "discards"@[5] == 'r' && "discards"@[6] == 'd' && "discards"@[7] == 's');
    assert("stackIds"@.len() == 8 && "stackIds"@[0] == 's' && "stackIds"@[1] == 't' && "stackIds"@[2] == 'a' && "stackIds"@[3] == 'c' && "stackIds"@[4] == 'k' && "stackIds"@[5] == 'I' && "stackIds"@[6] == 'd' && "stackIds"@[7] == 's');
    assert("tokens"@.len() == 6 && "tokens"@[0] == 't' && "tokens"@[1] == 'o' && "tokens"@[2] == 'k' && "tokens"@[3] == 'e' && "tokens"@[4] == 'n' && "tokens"@[5] == 's');
    assert("burned"@.len() == 6 && "burned"@[0] == 'b' && "burned"@[1] == 'u' && "burned"@[2] == 'r' && "burned"@[3] == 'n' && "burned"@[4] == 'e' && "burned"@[5] == 'd');
    assert("seed"@.len() == 4 && "seed"@[0] == 's' && "seed"@[1] == 'e' && "seed"@[2] == 'e' && "seed"@[3] == 'd');
    assert("reshufflePolicy"@.len() == 15 && "reshufflePolicy"@[0] == 'r' && "reshufflePolicy"@[1] == 'e' && "reshufflePolicy"@[2] == 's' && "reshufflePolicy"@[3] == 'h' && "reshufflePolicy"@[4] == 'u' && "reshufflePolicy"@[5] == 'f' && "reshufflePolicy"@[6] == 'f' && "reshufflePolicy"@[7] == 'l' && "reshufflePolicy"@[8] == 'e' && "reshufflePolicy"@[9] == 'P' && "reshufflePolicy"@[10] == 'o' && "reshufflePolicy"@[11] == 'l' && "reshufflePolicy"@[12] == 'i' && "reshufflePolicy"@[13] == 'c' && "reshufflePolicy"@[14] == 'y');
    assert("threshold"@.len() == 9 && "threshold"@[0] == 't' && "threshold"@[1] == 'h' && "threshold"@[2] == 'r' && "threshold"@[3] == 'e' && "threshold"@[4] == 's' && "threshold"@[5] == 'h' && "threshold"@[6] == 'o' && "threshold"@[7] == 'l' && "threshold"@[8] == 'd');
    assert("mode"@.len() == 4 && "mode"@[0] == 'm' && "mode"@[1] == 'o' && "mode"@[2] == 'd' && "mode"@[3] == 'e');
    assert("turn"@.len() == 4 && "turn"@[0] == 't' && "turn"@[1] == 'u' && "turn"@[2] == 'r' && "turn"@[3] == 'n');
    assert("running"@.len() == 7 && "running"@[0] == 'r' && "running"@[1] == 'u' && "running"@[2] == 'n' && "running"@[3] == 'n' && "running"@[4] == 'i' && "running"@[5] == 'n' && "running"@[6] == 'g');
    assert("activeAgentIndex"@.len() == 16 && "activeAgentIndex"@[0] == 'a' && "activeAgentIndex"@[1] == 'c' && "activeAgentIndex"@[2] == 't' && "activeAgentIndex"@[3] == 'i' && "activeAgentIndex"@[4] == 'v' && "activeAgentIndex"@[5] == 'e' && "activeAgentIndex"@[6] == 'A' && "activeAgentIndex"@[7] == 'g' && "activeAgentIndex"@[8] == 'e' && "activeAgentIndex"@[9] == 'n' && "activeAgentIndex"@[10] == 't' && "activeAgentIndex"@[11] == 'I' && "activeAgentIndex"@[12] == 'n' && "activeAgentIndex"@[13] == 'd' && "activeAgentIndex"@[14] == 'e' && "activeAgentIndex"@[15] == 'x');
    assert("phase"@.len() == 5 && "phase"@[0] == 'p' && "phase"@[1] == 'h' && "phase"@[2] == 'a' && "phase"@[3] == 's' && "phase"@[4] == 'e');
    assert("maxTurns"@.len() == 8 && "maxTurns"@[0] == 'm' && "maxTurns"@[1] == 'a' && "maxTurns"@[2] == 'x' && "maxTurns"@[3] == 'T' && "maxTurns"@[4] == 'u' && "maxTurns"@[5] == 'r' && "maxTurns"@[6] == 'n' && "maxTurns"@[7] == 's');
    assert("fired"@.len() == 5 && "fired"@[0] == 'f' && "fired"@[1] == 'i' && "fired"@[2] == 'r' && "fired"@[3] == 'e' && "fired"@[4] == 'd');
    assert("zones"@.len() == 5 && "zones"@[0] == 'z' && "zones"@[1] == 'o' && "zones"@[2] == 'n' && "zones"@[3] == 'e' && "zones"@[4] == 's');
    assert("source"@.len() == 6 && "source"@[0] == 's' && "source"@[1] == 'o' && "source"@[2] == 'u' && "source"@[3] == 'r' && "source"@[4] == 'c' && "source"@[5] == 'e');
    assert("gameLoop"@.len() == 8 && "gameLoop"@[0] == 'g' && "gameLoop"@[1] == 'a' && "gameLoop"@[2] == 'm' && "gameLoop"@[3] == 'e' && "gameLoop"@[4] == 'L' && "gameLoop"@[5] == 'o' && "gameLoop"@[6] == 'o' && "gameLoop"@[7] == 'p');
    assert("rules"@.len() == 5 && "rules"@[0] == 'r' && "rules"@[1] == 'u' && "rules"@[2] == 'l' && "rules"@[3] == 'e' && "rules"@[4] == 's');
    assert("agents"@.len() == 6 && "agents"@[0] == 'a' && "agents"@[1] == 'g' && "agents"@[2] == 'e' && "agents"@[3] == 'n' && "agents"@[4] == 't' && "agents"@[5] == 's');
    assert("version"@.len() == 7 && "version"@[0] == 'v' && "version"@[1] == 'e' && "version"@[2] == 'r' && "version"@[3] == 's' && "version"@[4] == 'i' && "version"@[5] == 'o' && "version"@[6] == 'n');
    assert("nullifiers"@.len() == 10 && "nullifiers"@[0] == 'n' && "nullifiers"@[1] == 'u' && "nullifiers"@[2] == 'l' && "nullifiers"@[3] == 'l' && "nullifiers"@[4] == 'i' && "nullifiers"@[5] == 'f' && "nullifiers"@[6] == 'i' && "nullifiers"@[7] == 'e' && "nullifiers"@[8] == 'r' && "nullifiers"@[9] == 's');
    assert("_attachments"@.len() == 12 && "_attachments"@[0] == '_' && "_attachments"@[1] == 'a' && "_attachments"@[2] == 't' && "_attachments"@[3] == 't' && "_attachments"@[4] == 'a' && "_attachments"@[5] == 'c' && "_attachments"@[6] == 'h' && "_attachments"@[7] == 'm' && "_attachments"@[8] == 'e' && "_attachments"@[9] == 'n' && "_attachments"@[10] == 't' && "_attachments"@[11] == 's');
}

} // verus!
